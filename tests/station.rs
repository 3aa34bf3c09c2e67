use chatteroo::error::Error;
use chatteroo::station::Station;
use crc32fast::Hasher;

#[test]
fn precise_test() {
    //                     < V  ><   K    ><   7    >< X  >    < T  >< SSID 5 >
    let expected_full = [0b01010100, 0b10101000, 0b01010111, 0b01001110, 0b10010000];
    let s = Station::new("VK7XT".to_owned(), 5).unwrap();
    let encoded = s.encoded("");
    assert_eq!(encoded, expected_full);

    // This time "SSID 5" is in the higher range that indicates a net prefix
    //                    < X  ><   T    >< SSID 5 >
    let expected_pre = [0b01011101, 0b00111100, 0b11000000];
    let encoded = s.encoded("VK7");
    assert_eq!(encoded, expected_pre);
}

#[test]
fn expected_size() {
    let values = [
        // callsign, ssid, net prefix, expected bytes
        ("W1AW", 0, "", 4),
        ("VK7XT", 5, "", 5),
        ("VK7FDAE", 4, "", 6),
        // fewer bytes required when prefix is known
        ("VK7XT", 5, "VK7", 3),
        ("VK7NTK", 8, "VK7", 3),
        // but if prefix doesn't match get the full-length result
        ("VK7XT", 5, "VK3", 5),
    ];
    for (callsign, ssid, prefix, expected_len) in values {
        let s = Station::new(callsign.to_owned(), ssid).unwrap();
        let encoded = s.encoded(prefix);
        assert_eq!(
            encoded.len(),
            expected_len,
            "{}-{} prefix {}",
            callsign,
            ssid,
            prefix
        );
    }
}

#[test]
fn round_trip() {
    let callsigns = [("W1AW", 0), ("VK7XT", 5), ("VK7FDAE", 4), ("VK7NTK", 8)];
    let prefixes = ["", "VK7", "VK3"];
    for (c, ssid) in callsigns {
        for p in prefixes {
            let s = Station::new(c.to_owned(), ssid).unwrap();
            let encoded = s.encoded(p);
            let (decoded, _) = Station::try_parse(&encoded, p).unwrap();
            assert_eq!(s, decoded, "{}-{} prefix {}", c, ssid, p);
        }
    }
}

#[test]
fn all_chars_and_sizes() {
    let full = "ABCDEFGHIJKLMNOPQRSTUVWXYZ0123456789";
    for sub in 0..full.len() {
        let callsign = &full[sub..];
        for ssid in 0..=9 {
            let s = Station::new(callsign.to_owned(), ssid).unwrap();
            let encoded = s.encoded("");
            let (decoded, _) = Station::try_parse(&encoded, "").unwrap();
            assert_eq!(s, decoded, "{}-{}", callsign, ssid);
            // Make sure we don't panic if decoding truncated stations
            for i in 0..encoded.len() {
                let _ = Station::try_parse(&encoded[i..], "");
            }
        }
    }
}

#[test]
fn concatenated() {
    let s1 = Station::new("W1AW".to_owned(), 0).unwrap();
    let s2 = Station::new("VK7XT".to_owned(), 5).unwrap();
    let s3 = Station::new("VK7FDAE".to_owned(), 4).unwrap();

    let combined: Vec<u8> = s1
        .encoded("")
        .into_iter()
        .chain(s2.encoded("").into_iter())
        .chain(s3.encoded("").into_iter())
        .collect();

    let (read1, remainder) = Station::try_parse(&combined, "").unwrap();
    let (read2, remainder) = Station::try_parse(&remainder, "").unwrap();
    let (read3, remainder) = Station::try_parse(&remainder, "").unwrap();

    assert_eq!(read1, s1);
    assert_eq!(read2, s2);
    assert_eq!(read3, s3);
    assert!(remainder.is_empty());
}

#[test]
fn buckets() {
    for (callsign, ssid) in [
        ("VK7XT", 5),
        ("W1AW", 0),
        ("VK7FDAE", 4),
        ("VK7NTK", 7),
        ("VK7NTK", 8),
        ("VK7NTK", 9),
    ] {
        let s = Station::new(callsign.to_owned(), ssid).unwrap();
        let mut hasher = Hasher::new();
        s.hash(&mut hasher);
        println!(
            "Call: {}\tHash: {:02X}\tBucket: {}",
            s.display(),
            hasher.finalize(),
            s.bucket()
        );
    }
}

#[test]
fn bucket_is_crc_of_callsign_and_ssid() {
    let s = Station::new("VK7XT".to_owned(), 5).unwrap();
    let mut bytes = b"VK7XT".to_vec();
    bytes.push(5);
    let expected = (crc32fast::hash(&bytes) % 16) as u8;
    assert_eq!(s.bucket(), expected);
    let mut hasher = Hasher::new();
    s.hash(&mut hasher);
    assert_eq!(hasher.finalize(), crc32fast::hash(&bytes));
    // Feeding a station continues a running checksum.
    let mut hasher = Hasher::new();
    hasher.update(b"prefix");
    s.hash(&mut hasher);
    let mut all = b"prefix".to_vec();
    all.extend_from_slice(&bytes);
    assert_eq!(hasher.finalize(), crc32fast::hash(&all));
}

#[test]
fn new_rejects_bad_callsign_and_ssid() {
    assert_eq!(Station::new("vk7xt".to_owned(), 5), Err(Error::InvalidCallsign));
    assert_eq!(Station::new("VK7-XT".to_owned(), 5), Err(Error::InvalidCallsign));
    assert_eq!(Station::new("VK7XÉ".to_owned(), 5), Err(Error::InvalidCallsign));
    assert_eq!(Station::new("".to_owned(), 5), Err(Error::InvalidCallsign));
    assert_eq!(Station::new("VK7XT".to_owned(), 10), Err(Error::InvalidSsid));
    assert_eq!(Station::new("VK7XT".to_owned(), 255), Err(Error::InvalidSsid));
    let s = Station::new("VK7XT".to_owned(), 9).unwrap();
    assert_eq!(s.callsign(), "VK7XT");
    assert_eq!(s.ssid(), 9);
}

#[test]
fn display_form() {
    let s = Station::new("VK7XT".to_owned(), 5).unwrap();
    assert_eq!(s.display(), "VK7XT-5");
    assert_eq!(s.display_bytes(), b"VK7XT-5".to_vec());
}

#[test]
fn truncated_encodings_are_rejected() {
    for (c, ssid, p) in [("W1AW", 0, ""), ("VK7XT", 5, ""), ("VK7FDAE", 4, ""), ("VK7NTK", 8, "VK7")] {
        let s = Station::new(c.to_owned(), ssid).unwrap();
        let encoded = s.encoded(p);
        for k in 0..encoded.len() {
            assert_eq!(
                Station::try_parse(&encoded[..k], p),
                Err(Error::InvalidStationIdentifier)
            );
        }
    }
}

#[test]
fn malformed_station_bytes() {
    // A terminal SSID value first: no callsign values.
    assert_eq!(
        Station::try_parse(&[36 << 2], ""),
        Err(Error::InvalidStationIdentifier)
    );
    // A value of 56 or more where a callsign value is expected.
    assert_eq!(
        Station::try_parse(&[60 << 2, 0], ""),
        Err(Error::InvalidStationIdentifier)
    );
    // A prefix-elided station read with a prefix that is not uppercase.
    let s = Station::new("VK7XT".to_owned(), 5).unwrap();
    let encoded = s.encoded("VK7");
    assert_eq!(
        Station::try_parse(&encoded, "vk7"),
        Err(Error::InvalidStationIdentifier)
    );
    let (decoded, rest) = Station::try_parse(&encoded, "VK7").unwrap();
    assert_eq!(decoded, s);
    assert!(rest.is_empty());
}

#[test]
fn padding_bits_are_skipped() {
    // W1AW-0 takes 5 values (30 bits): the last 2 bits of the 4th byte are padding.
    let s = Station::new("W1AW".to_owned(), 0).unwrap();
    let mut encoded = s.encoded("");
    let last = encoded.len() - 1;
    encoded[last] |= 0b11;
    encoded.push(0xAB);
    let (decoded, rest) = Station::try_parse(&encoded, "").unwrap();
    assert_eq!(decoded, s);
    assert_eq!(rest, &[0xAB]);
}
