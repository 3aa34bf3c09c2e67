use chatteroo::ax25::{
    decode_transmission, encode_transmission, ssid_version, Ax25Error, FrameContent, LinkAddress,
    LinkFrame,
};
use chatteroo::codec::{
    command_byte, decode_command, decode_frame_with_metadata, encode_command,
    encode_contiguous_range, encode_frame_with_metadata, take_contiguous_range, take_crc,
};
use chatteroo::error::Error;
use chatteroo::global::{
    BucketContentRequest, BucketContentResponse, ChatterooVersion, Command, ContiguousRange,
    EpochRequest, EpochResponse, FrameDefinition, FrameRequest, FrameWithMetadata, InsertFrame,
    PingRequest, PingResponse, QuickEpochResponse, Range, StationDataRequest, StationDataResponse,
    StationHeard, StationSparse, StationSummary, Status, Transmission,
};
use chatteroo::network::Network;
use chatteroo::station::Station;

fn station(c: &str, ssid: u8) -> Station {
    Station::new(c.to_owned(), ssid).unwrap()
}

fn transmission(command: Command) -> Transmission {
    Transmission {
        version: ChatterooVersion::Test,
        network: Network::new("VK7".to_owned()).unwrap(),
        sender: station("VK7XT", 4),
        command,
    }
}

fn frame() -> FrameWithMetadata {
    FrameWithMetadata {
        epoch_mod8: 5,
        index: 8191,
        start_of_message: true,
        end_of_message: false,
        application: 9,
        data: b"hello".to_vec(),
    }
}

#[test]
fn basic_roundtrip() {
    let station = Station::new("VK7XT".to_owned(), 4).unwrap();
    let net_prefix = "VK7";
    let t = Transmission {
        version: ChatterooVersion::Test,
        network: Network::new(net_prefix.to_owned()).unwrap(),
        sender: station.clone(),
        command: Command::Status(Status {
            epoch_now_mod8: 1,
            epoch_4_ago_crc: 0xaaaaaaaa,
            epoch_3_ago_crc: 0xbbbbbbbb,
            epoch_2_ago_crc: 0xcccccccc,
            epoch_1_ago_crc: 0xdddddddd,
            epoch_now_crc: 0xeeeeeeee,
            epoch_next_crc: 0xffffffff,
            recently_added: vec![StationSparse {
                station,
                top: 50,
                bottom: 0,
            }],
        }),
    };
    let encoded = encode_transmission(&t);
    let decoded = decode_transmission(&encoded, net_prefix).unwrap();
    assert_eq!(t, decoded);
}

#[test]
fn every_command_round_trips() {
    let commands = vec![
        Command::Range(Range {
            final_page: 2,
            page: 1,
            stations: (0..10)
                .map(|i| StationHeard {
                    station: station("VK7NTK", i % 10),
                    is_mutual: i % 3 == 0,
                })
                .collect(),
        }),
        Command::InsertFrame(InsertFrame { frame: frame() }),
        Command::RepeatFrame(FrameDefinition { station: station("W1AW", 0), frame: frame() }),
        Command::QuickSyncFrameRequest(FrameRequest {
            target: station("VK7XT", 5),
            inserter: station("VK3ABC", 1),
            epoch_mod8: 7,
            index: 1234,
        }),
        Command::QuickSyncFrameResponse(FrameDefinition { station: station("VK7FDAE", 4), frame: frame() }),
        Command::BackfillFrameRequest(FrameRequest {
            target: station("VK7XT", 5),
            inserter: station("VK7XT", 6),
            epoch_mod8: 0,
            index: 0,
        }),
        Command::BackfillFrameResponse(FrameDefinition { station: station("VK7XT", 5), frame: frame() }),
        Command::EpochRequest(EpochRequest { target: station("VK7XT", 5), epoch_mod8: 6 }),
        Command::QuickEpochResponse(QuickEpochResponse {
            epoch_mod8: 3,
            stations: vec![
                StationSummary { station: station("VK7XT", 5), top: 10, bottom: 0, epoch_crc: 7 },
                StationSummary { station: station("W1AW", 1), top: 300, bottom: 200, epoch_crc: 0xdeadbeef },
            ],
        }),
        Command::EpochResponse(EpochResponse { epoch_mod8: 2, checksums: [9; 16] }),
        Command::BucketContentRequest(BucketContentRequest {
            target: station("VK7XT", 5),
            epoch_mod8: 4,
            bucket: 15,
            page: 3,
        }),
        Command::BucketContentResponse(BucketContentResponse {
            epoch_mod8: 1,
            final_page: 4,
            page: 4,
            stations: vec![StationSummary { station: station("VK7NTK", 8), top: 8191, bottom: 1, epoch_crc: 1 }],
        }),
        Command::StationDataRequest(StationDataRequest {
            target: station("VK7XT", 5),
            station: station("VK7NTK", 8),
            epoch_mod8: 5,
            from_index: 4000,
        }),
        Command::StationDataResponse(StationDataResponse {
            station: station("VK7XT", 5),
            epoch_mod8: 6,
            end_of_data: true,
            ranges: vec![ContiguousRange { top: 100, bottom: 0 }, ContiguousRange { top: 300, bottom: 200 }],
        }),
        Command::PingRequest(PingRequest { target: station("VK7XT", 5) }),
    ];
    for command in commands {
        let t = transmission(command);
        let decoded = decode_transmission(&encode_transmission(&t), "VK7").unwrap();
        assert_eq!(t, decoded);
    }
}

#[test]
fn status_round_trip_scenario() {
    let s = station("VK7XT", 4);
    let command = Command::Status(Status {
        epoch_now_mod8: 1,
        epoch_4_ago_crc: 0xAAAAAAAA,
        epoch_3_ago_crc: 0xBBBBBBBB,
        epoch_2_ago_crc: 0xCCCCCCCC,
        epoch_1_ago_crc: 0xDDDDDDDD,
        epoch_now_crc: 0xEEEEEEEE,
        epoch_next_crc: 0xFFFFFFFF,
        recently_added: vec![StationSparse { station: s, top: 50, bottom: 0 }],
    });
    let bytes = encode_command(&command, "VK7");
    assert_eq!(bytes[0], 0x20);
    assert_eq!(&bytes[1..5], &[0xAA; 4]);
    assert_eq!(&bytes[21..25], &[0xFF; 4]);
    // VK7XT-4 with prefix VK7 takes 3 bytes, then the range 50 with bottom 0.
    assert_eq!(&bytes[28..], &[0x80, 50]);
    assert_eq!(decode_command(&bytes, "VK7").unwrap(), command);
}

#[test]
fn epoch_response_bytes() {
    let checksums: [u32; 16] = core::array::from_fn(|i| i as u32 + 1);
    let command = Command::EpochResponse(EpochResponse { epoch_mod8: 3, checksums });
    let bytes = encode_command(&command, "");
    assert_eq!(bytes.len(), 65);
    assert_eq!(bytes[0], 0x6A);
    for i in 0..16 {
        assert_eq!(&bytes[1 + 4 * i..5 + 4 * i], &(i as u32 + 1).to_be_bytes());
    }
    assert_eq!(command_byte(&command), 10);
    assert_eq!(decode_command(&bytes, "").unwrap(), command);
}

#[test]
fn contiguous_range_short_form() {
    let mut out = vec![];
    encode_contiguous_range(100, 0, &mut out);
    assert_eq!(out, vec![0x80, 0x64]);
    let (top, bottom, rest) = take_contiguous_range(&out).unwrap();
    assert_eq!((top, bottom), (100, 0));
    assert!(rest.is_empty());
}

#[test]
fn contiguous_range_long_form() {
    let mut out = vec![];
    encode_contiguous_range(300, 200, &mut out);
    assert_eq!(out, vec![0x01, 0x2C, 0x00, 0xC8]);
    let (top, bottom, rest) = take_contiguous_range(&out).unwrap();
    assert_eq!((top, bottom), (300, 200));
    assert!(rest.is_empty());
    assert_eq!(take_contiguous_range(&[0x01, 0x2C, 0x00]), Err(Ax25Error::Truncated));
    assert_eq!(take_contiguous_range(&[0x80]), Err(Ax25Error::Truncated));
    assert_eq!(take_contiguous_range(&[]), Err(Ax25Error::Truncated));
}

#[test]
fn ping_response_keeps_diagnostic() {
    let command = Command::PingResponse(PingResponse {
        target: station("VK7XT", 5),
        diagnostic: "Chatteroo v1".to_owned(),
    });
    let bytes = encode_command(&command, "VK7");
    assert_eq!(&bytes[4..], b"Chatteroo v1");
    let t = transmission(command);
    let decoded = decode_transmission(&encode_transmission(&t), "VK7").unwrap();
    assert_eq!(decoded, t);
    match decoded.command {
        Command::PingResponse(p) => assert_eq!(p.diagnostic.as_bytes(), b"Chatteroo v1"),
        _ => panic!("wrong command"),
    }
}

#[test]
fn foreign_destination_is_rejected() {
    let mut frame = encode_transmission(&transmission(Command::PingRequest(PingRequest {
        target: station("VK7XT", 5),
    })));
    frame.destination.callsign = "XXX".to_owned();
    assert_eq!(decode_transmission(&frame, "VK7"), Err(Ax25Error::NotChatteroo));
}

#[test]
fn single_bit_flips_are_detected() {
    let t = transmission(Command::InsertFrame(InsertFrame { frame: frame() }));
    let frame = encode_transmission(&t);
    let info = match &frame.content {
        FrameContent::UnnumberedInformation(v) => v.clone(),
        FrameContent::Other => panic!("not a UI frame"),
    };
    for k in 0..info.len() {
        for bit in 0..8 {
            let mut flipped = frame.clone();
            let mut data = info.clone();
            data[k] ^= 1 << bit;
            flipped.content = FrameContent::UnnumberedInformation(data);
            assert_eq!(decode_transmission(&flipped, "VK7"), Err(Ax25Error::CrcMismatch));
        }
    }
}

#[test]
fn frame_layout() {
    let t = transmission(Command::PingRequest(PingRequest { target: station("W1AW", 0) }));
    let frame = encode_transmission(&t);
    assert_eq!(frame.destination.callsign, "CHTVK7");
    assert_eq!(frame.destination.ssid, 0);
    assert_eq!(frame.source.callsign, "VK7XT");
    assert_eq!(frame.source.ssid, 4);
    let info = match &frame.content {
        FrameContent::UnnumberedInformation(v) => v.clone(),
        FrameContent::Other => panic!("not a UI frame"),
    };
    let cmd = encode_command(&t.command, "VK7");
    assert_eq!(&info[..info.len() - 4], &cmd[..]);
    let mut covered = b"VK7XT-4CHTVK7-0".to_vec();
    covered.extend_from_slice(&cmd);
    assert_eq!(&info[info.len() - 4..], &crc32fast::hash(&covered).to_be_bytes());
    assert_eq!(ssid_version(&ChatterooVersion::V1), 1);
}

#[test]
fn link_errors() {
    let t = transmission(Command::PingRequest(PingRequest { target: station("W1AW", 0) }));
    let good = encode_transmission(&t);

    let mut f = good.clone();
    f.content = FrameContent::Other;
    assert_eq!(decode_transmission(&f, "VK7"), Err(Ax25Error::NotChatteroo));

    let mut f = good.clone();
    f.destination.ssid = 7;
    assert_eq!(decode_transmission(&f, "VK7"), Err(Ax25Error::InvalidChatterooVersion(7)));

    let mut f = good.clone();
    f.destination.callsign = "CHTvk7".to_owned();
    assert_eq!(
        decode_transmission(&f, "VK7"),
        Err(Ax25Error::ProtocolError(Error::InvalidNetwork))
    );

    let mut f = good.clone();
    f.source = LinkAddress { callsign: "vk7xt".to_owned(), ssid: 4 };
    assert_eq!(
        decode_transmission(&f, "VK7"),
        Err(Ax25Error::ProtocolError(Error::InvalidCallsign))
    );

    let mut f = good.clone();
    f.source.ssid = 12;
    assert_eq!(
        decode_transmission(&f, "VK7"),
        Err(Ax25Error::ProtocolError(Error::InvalidSsid))
    );

    let mut f = good.clone();
    f.content = FrameContent::UnnumberedInformation(vec![1, 2, 3]);
    assert_eq!(decode_transmission(&f, "VK7"), Err(Ax25Error::Truncated));

    let v1 = Transmission { version: ChatterooVersion::V1, ..t.clone() };
    let decoded = decode_transmission(&encode_transmission(&v1), "VK7").unwrap();
    assert_eq!(decoded.version, ChatterooVersion::V1);
}

fn signed(sender: &Station, dest: &str, info: Vec<u8>) -> LinkFrame {
    let mut covered = sender.display_bytes();
    covered.extend_from_slice(dest.as_bytes());
    covered.extend_from_slice(b"-0");
    covered.extend_from_slice(&info);
    let mut payload = info;
    payload.extend_from_slice(&crc32fast::hash(&covered).to_be_bytes());
    LinkFrame {
        source: LinkAddress { callsign: sender.callsign().to_owned(), ssid: sender.ssid() },
        destination: LinkAddress { callsign: dest.to_owned(), ssid: 0 },
        content: FrameContent::UnnumberedInformation(payload),
    }
}

#[test]
fn command_errors() {
    let s = station("VK7XT", 4);
    let cases: Vec<(Vec<u8>, Ax25Error)> = vec![
        (vec![], Ax25Error::InvalidCommand),
        (vec![17], Ax25Error::InvalidCommand),
        (vec![31], Ax25Error::InvalidCommand),
        (vec![8, 0xFF], Ax25Error::InvalidStation),
        (vec![0, 1, 2, 3], Ax25Error::Truncated),
        (vec![2, 0], Ax25Error::Truncated),
        (vec![10, 0, 0, 0, 1], Ax25Error::Truncated),
    ];
    for (info, err) in cases {
        let f = signed(&s, "CHTVK7", info.clone());
        assert_eq!(decode_transmission(&f, "VK7"), Err(err));
        assert_eq!(decode_command(&info, "VK7").err(), Some(err));
    }
    // PingResponse whose diagnostic is not UTF-8.
    let mut info = vec![16];
    info.extend(station("VK7XT", 5).encoded("VK7"));
    info.extend([0xFF, 0xFE]);
    assert_eq!(decode_command(&info, "VK7").err(), Some(Ax25Error::InvalidUtf8));
    // Range announcing more stations than it carries a bitmap for.
    let mut info = vec![1, 0x00, 1];
    info.extend(station("VK7XT", 5).encoded(""));
    assert_eq!(decode_command(&info, "").err(), Some(Ax25Error::Truncated));
}

#[test]
fn decoded_fields_are_in_range() {
    // Frame fields come from masked bits whatever the bytes hold.
    let f = decode_frame_with_metadata(&[0xFF, 0xFF, 0xFF, 1, 2]).unwrap();
    assert_eq!(f.epoch_mod8, 7);
    assert_eq!(f.index, 8191);
    assert_eq!(f.application, 15);
    assert!(f.start_of_message && f.end_of_message);
    assert_eq!(f.data, vec![1, 2]);
    let mut out = vec![];
    encode_frame_with_metadata(&f, &mut out);
    assert_eq!(out, vec![0xFF, 0xFF, 0xCF, 1, 2]);
    for first in 0u8..=255 {
        for second in [0u8, 0x5A, 0xFF] {
            let info = [first, second, 0xFF, 0xFF, 0xFF, 0xFF, 0xFF];
            if let Ok(c) = decode_command(&info, "") {
                match c {
                    Command::InsertFrame(i) => {
                        assert!(i.frame.epoch_mod8 < 8 && i.frame.index < 8192 && i.frame.application < 16)
                    }
                    Command::Range(r) => assert!(r.page <= r.final_page && r.final_page <= 15),
                    Command::EpochResponse(e) => assert!(e.epoch_mod8 < 8),
                    _ => {}
                }
            }
        }
    }
}

#[test]
fn crc_reads_big_endian() {
    let (crc, rest) = take_crc(&[0x12, 0x34, 0x56, 0x78, 9]).unwrap();
    assert_eq!(crc, 0x12345678);
    assert_eq!(rest, &[9]);
    assert_eq!(take_crc(&[1, 2, 3]), Err(Ax25Error::Truncated));
}

#[test]
fn page_after_final_page_is_rejected() {
    // Range: page byte 0x05 is final page 0, page 5.
    assert_eq!(decode_command(&[1, 0x05, 0], "").err(), Some(Ax25Error::InvalidCommand));
    assert!(decode_command(&[1, 0x50, 0], "").is_ok());
    // BucketContentResponse with final page 1, page 2.
    assert_eq!(decode_command(&[12, 0x12], "").err(), Some(Ax25Error::InvalidCommand));
    match decode_command(&[12, 0x21], "").unwrap() {
        Command::BucketContentResponse(b) => assert_eq!((b.final_page, b.page), (2, 1)),
        _ => panic!("wrong command"),
    }
    // The same through a whole frame.
    let s = station("VK7XT", 4);
    let f = signed(&s, "CHTVK7", vec![1, 0x05, 0]);
    assert_eq!(decode_transmission(&f, "VK7"), Err(Ax25Error::InvalidCommand));
}

#[test]
fn range_with_bottom_above_top_is_read_as_is() {
    // top 5, bottom 10 in the long form.
    let mut out = vec![];
    encode_contiguous_range(5, 10, &mut out);
    out.push(0x77);
    assert_eq!(out, vec![0x00, 0x05, 0x00, 0x0A, 0x77]);
    assert_eq!(take_contiguous_range(&out), Ok((5, 10, &[0x77][..])));
    // A station data response carries such a range through.
    let mut info = vec![14];
    info.extend(station("VK7XT", 5).encoded(""));
    info.extend([0x03, 0x00, 0x05, 0x00, 0x0A]);
    match decode_command(&info, "").unwrap() {
        Command::StationDataResponse(r) => {
            assert_eq!(r.ranges, vec![ContiguousRange { top: 5, bottom: 10 }])
        }
        _ => panic!("wrong command"),
    }
}

#[test]
fn summary_with_bottom_above_top_is_rejected() {
    // QuickEpochResponse with one summary: top 5, bottom 10.
    let mut info = vec![9];
    info.extend(station("VK7XT", 5).encoded(""));
    info.extend([0x00, 0x05, 0x00, 0x0A, 0, 0, 0, 1]);
    assert_eq!(decode_command(&info, "").err(), Some(Ax25Error::InvalidCommand));
    // Status with one recently-added station: top 5, bottom 10.
    let mut info = vec![0];
    info.extend([0u8; 24]);
    info.extend(station("VK7XT", 5).encoded(""));
    info.extend([0x00, 0x05, 0x00, 0x0A]);
    assert_eq!(decode_command(&info, "").err(), Some(Ax25Error::InvalidCommand));
    // Bottom equal to top is accepted.
    let mut info = vec![9];
    info.extend(station("VK7XT", 5).encoded(""));
    info.extend([0x00, 0x05, 0x00, 0x05, 0, 0, 0, 1]);
    assert!(decode_command(&info, "").is_ok());
}
