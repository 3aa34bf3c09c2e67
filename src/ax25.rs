//! Chatteroo over AX.25: the link frame of a transmission and its integrity check.

use vstd::prelude::*;

use vstd::utf8::*;

use crate::checksum::{crc32, crc32_of};
use crate::codec::{
    be32, command_bytes, decode_command, encode_command, fields_in_range, is_valid_command,
    lemma_command_round_trip,
    parse_command, read_be32,
};
use crate::error::Error;
use crate::global::{ChatterooVersion, Transmission, TransmissionView};
use crate::network::{Network, is_valid_network};
use crate::station::{Station, StationView, display_chars, is_valid_station};
use crate::text::{
    ascii_bytes, lemma_ascii_chars_bytes, lemma_ascii_utf8, push_bytes,
    string_from_utf8,
};

verus! {

/// Failures when reading a Chatteroo transmission from an AX.25 frame.
#[derive(Debug, Clone, Copy, PartialEq, Eq, Structural)]
pub enum Ax25Error {
    /// Not a Chatteroo packet.
    NotChatteroo,
    /// The destination SSID names no known protocol version.
    InvalidChatterooVersion(u8),
    /// A protocol value in the frame is invalid.
    ProtocolError(Error),
    /// Unknown or missing command.
    InvalidCommand,
    /// A station identifier in the payload could not be read.
    InvalidStation,
    /// The payload ended early.
    Truncated,
    /// A text payload is not UTF-8.
    InvalidUtf8,
    /// The packet CRC did not match the content.
    CrcMismatch,
}

/// An AX.25 address: callsign and SSID.
#[derive(Clone, Debug)]
pub struct LinkAddress {
    pub callsign: String,
    pub ssid: u8,
}

/// Content of an AX.25 frame, as far as Chatteroo reads it.
#[derive(Clone, Debug)]
pub enum FrameContent {
    /// An unnumbered-information frame and its payload.
    UnnumberedInformation(Vec<u8>),
    /// Any other kind of frame.
    Other,
}

/// The parts of an AX.25 frame that carry a Chatteroo transmission.
#[derive(Clone, Debug)]
pub struct LinkFrame {
    pub source: LinkAddress,
    pub destination: LinkAddress,
    pub content: FrameContent,
}

/// View of a `LinkAddress`.
pub struct LinkAddressView {
    pub callsign: Seq<char>,
    pub ssid: u8,
}

/// View of a `LinkFrame`: `info` is the payload of an unnumbered-information
/// frame, `None` for other frames.
pub struct LinkFrameView {
    pub source: LinkAddressView,
    pub destination: LinkAddressView,
    pub info: Option<Seq<u8>>,
}

impl View for LinkFrame {
    type V = LinkFrameView;

    open spec fn view(&self) -> LinkFrameView {
        LinkFrameView {
            source: LinkAddressView { callsign: self.source.callsign@, ssid: self.source.ssid },
            destination: LinkAddressView {
                callsign: self.destination.callsign@,
                ssid: self.destination.ssid,
            },
            info: match &self.content {
                FrameContent::UnnumberedInformation(v) => Some(v@),
                FrameContent::Other => None,
            },
        }
    }
}

/// The destination SSID of a protocol version.
pub open spec fn version_code(v: ChatterooVersion) -> u8 {
    match v {
        ChatterooVersion::Test => 0,
        ChatterooVersion::V1 => 1,
    }
}

/// The destination callsign of a network: `CHT` then the network identifier.
pub open spec fn destination_callsign(network: Seq<char>) -> Seq<char> {
    seq!['C', 'H', 'T'] + network
}

/// What the frame checksum covers: the sender's display form, the destination
/// callsign's bytes, `-` and the version digit, then the command bytes.
pub open spec fn checksum_input(
    sender: StationView,
    destination: Seq<u8>,
    version: u8,
    payload: Seq<u8>,
) -> Seq<u8> {
    ascii_bytes(display_chars(sender)) + destination + seq![45u8, (48 + version) as u8] + payload
}

/// The link frame that carries transmission `t`.
pub open spec fn transmission_frame(t: TransmissionView) -> LinkFrameView {
    let cmd = command_bytes(t.command, t.network);
    let dest = destination_callsign(t.network);
    let code = version_code(t.version);
    LinkFrameView {
        source: LinkAddressView { callsign: t.sender.callsign, ssid: t.sender.ssid },
        destination: LinkAddressView { callsign: dest, ssid: code },
        info: Some(cmd + be32(crc32_of(checksum_input(t.sender, encode_utf8(dest), code, cmd)))),
    }
}

/// The transmission in frame `f`, with stations read against prefix `p`.
pub open spec fn parse_transmission(f: LinkFrameView, p: Seq<char>) -> Result<
    TransmissionView,
    Ax25Error,
> {
    let dest = encode_utf8(f.destination.callsign);
    if !(dest.len() >= 3 && dest[0] == 67 && dest[1] == 72 && dest[2] == 84) {
        Err(Ax25Error::NotChatteroo)
    } else if f.info is None {
        Err(Ax25Error::NotChatteroo)
    } else if f.destination.ssid > 1 {
        Err(Ax25Error::InvalidChatterooVersion(f.destination.ssid))
    } else if !valid_utf8(dest.skip(3)) || !is_valid_network(decode_utf8(dest.skip(3))) {
        Err(Ax25Error::ProtocolError(Error::InvalidNetwork))
    } else {
        let sender = StationView { callsign: f.source.callsign, ssid: f.source.ssid };
        let info = f.info->0;
        if sender.callsign.len() == 0 || !crate::network::all_ident_chars(sender.callsign) {
            Err(Ax25Error::ProtocolError(Error::InvalidCallsign))
        } else if sender.ssid > 9 {
            Err(Ax25Error::ProtocolError(Error::InvalidSsid))
        } else if info.len() < 4 {
            Err(Ax25Error::Truncated)
        } else {
            let payload = info.take(info.len() - 4);
            if read_be32(info.skip(info.len() - 4)) != crc32_of(
                checksum_input(sender, dest, f.destination.ssid, payload),
            ) {
                Err(Ax25Error::CrcMismatch)
            } else {
                match parse_command(payload, p) {
                    Err(e) => Err(e),
                    Ok(command) => Ok(
                        TransmissionView {
                            version: if f.destination.ssid == 0 {
                                ChatterooVersion::Test
                            } else {
                                ChatterooVersion::V1
                            },
                            network: decode_utf8(dest.skip(3)),
                            sender,
                            command,
                        },
                    ),
                }
            }
        }
    }
}

/// The destination SSID (0 or 1) of a protocol version.
pub fn ssid_version(v: &ChatterooVersion) -> (r: u8)
    ensures
        r == version_code(*v),
{
    match v {
        ChatterooVersion::Test => 0,
        ChatterooVersion::V1 => 1,
    }
}

/// Bytes covered by the frame checksum.
fn checksum_bytes(sender: &Station, destination: &[u8], version: u8, payload: &[u8]) -> (r: Vec<u8>)
    requires
        version <= 9,
    ensures
        r@ == checksum_input(sender@, destination@, version, payload@),
{
    let mut out = sender.display_bytes();
    push_bytes(&mut out, destination);
    out.push(45);
    out.push(48 + version);
    push_bytes(&mut out, payload);
    assert(out@ =~= checksum_input(sender@, destination@, version, payload@));
    out
}

/// Builds the link frame of a transmission: destination `CHT` + network with
/// the version as SSID, the sender as source, and the command bytes followed
/// by a big-endian CRC-32 as the unnumbered-information payload.
pub fn encode_transmission(t: &Transmission) -> (r: LinkFrame)
    ensures
        r@ == transmission_frame(t@),
{
    let version = ssid_version(&t.version);
    let net = t.network.id();
    proof {
        assert(is_ascii_chars(net@));
        vstd::string::is_ascii_spec_bytes(net);
        lemma_ascii_chars_bytes(net@);
    }
    let mut dest_bytes: Vec<u8> = Vec::new();
    dest_bytes.push(67);
    dest_bytes.push(72);
    dest_bytes.push(84);
    push_bytes(&mut dest_bytes, net.as_bytes());
    let ghost dest = destination_callsign(net@);
    proof {
        assert(is_ascii_chars(dest));
        lemma_ascii_chars_bytes(dest);
        assert(dest_bytes@ =~= ascii_bytes(dest));
        lemma_ascii_utf8(dest_bytes@);
    }
    let info = encode_command(&t.command, net);
    let crc = crc32(checksum_bytes(&t.sender, dest_bytes.as_slice(), version, info.as_slice()).as_slice());
    let mut payload = info;
    payload.push((crc >> 24) as u8);
    payload.push((crc >> 16) as u8);
    payload.push((crc >> 8) as u8);
    payload.push(crc as u8);
    let dest_call = match string_from_utf8(dest_bytes) {
        Some(s) => s,
        None => {
            assert(false);
            String::new()
        },
    };
    let r = LinkFrame {
        source: LinkAddress { callsign: t.sender.callsign().to_owned(), ssid: t.sender.ssid() },
        destination: LinkAddress { callsign: dest_call, ssid: version },
        content: FrameContent::UnnumberedInformation(payload),
    };
    assert(r@.info->0 =~= transmission_frame(t@).info->0);
    r
}

/// Reads a transmission from a link frame, with stations read against
/// `net_prefix`.
///
/// Checks in this order: destination starts with `CHT`, unnumbered-information
/// content, version SSID, network identifier, sender, payload length, CRC,
/// then the command.
pub fn decode_transmission(frame: &LinkFrame, net_prefix: &str) -> (r: Result<
    Transmission,
    Ax25Error,
>)
    ensures
        match parse_transmission(frame@, net_prefix@) {
            Ok(t) => r matches Ok(t2) && t2@ == t,
            Err(e) => r matches Err(e2) && e2 == e,
        },
        r matches Ok(t) ==> fields_in_range(t@.command),
{
    let db = frame.destination.callsign.as_str().as_bytes();
    if !(db.len() >= 3 && db[0] == 67 && db[1] == 72 && db[2] == 84) {
        return Err(Ax25Error::NotChatteroo);
    }
    let info = match &frame.content {
        FrameContent::UnnumberedInformation(v) => v,
        FrameContent::Other => {
            return Err(Ax25Error::NotChatteroo);
        },
    };
    let dssid = frame.destination.ssid;
    let version = if dssid == 0 {
        ChatterooVersion::Test
    } else if dssid == 1 {
        ChatterooVersion::V1
    } else {
        return Err(Ax25Error::InvalidChatterooVersion(dssid));
    };
    let tail = vstd::slice::slice_subrange(db, 3, db.len());
    let network = match string_from_utf8(vstd::slice::slice_to_vec(tail)) {
        Some(id) => match Network::new(id) {
            Ok(n) => n,
            Err(e) => {
                return Err(Ax25Error::ProtocolError(e));
            },
        },
        None => {
            return Err(Ax25Error::ProtocolError(Error::InvalidNetwork));
        },
    };
    let sender = match Station::new(frame.source.callsign.clone(), frame.source.ssid) {
        Ok(s) => s,
        Err(e) => {
            return Err(Ax25Error::ProtocolError(e));
        },
    };
    let n = info.len();
    if n < 4 {
        return Err(Ax25Error::Truncated);
    }
    let payload = vstd::slice::slice_subrange(info.as_slice(), 0, n - 4);
    let trailer = vstd::slice::slice_subrange(info.as_slice(), n - 4, n);
    let packet_crc = ((trailer[0] as u32) << 24) | ((trailer[1] as u32) << 16) | ((trailer[2] as u32) << 8)
        | (trailer[3] as u32);
    let computed = crc32(checksum_bytes(&sender, db, dssid, payload).as_slice());
    if packet_crc != computed {
        return Err(Ax25Error::CrcMismatch);
    }
    let command = match decode_command(payload, net_prefix) {
        Ok(c) => c,
        Err(e) => {
            return Err(e);
        },
    };
    Ok(Transmission { version, network, sender, command })
}

/// A transmission whose parts are all valid.
pub open spec fn is_valid_transmission(t: TransmissionView) -> bool {
    is_valid_network(t.network) && is_valid_station(t.sender) && is_valid_command(t.command)
}

/// Bit facts of a big-endian 32-bit value: it is read back, and two values
/// read from bytes are equal only when the bytes are.
proof fn lemma_be32_bits(x: u32, a0: u8, a1: u8, a2: u8, a3: u8, b0: u8, b1: u8, b2: u8, b3: u8)
    by (bit_vector)
    ensures
        ((((x >> 24u32) as u8) as u32) << 24u32) | ((((x >> 16u32) as u8) as u32) << 16u32) | ((((
        x >> 8u32) as u8) as u32) << 8u32) | ((x as u8) as u32) == x,
        ((a0 as u32) << 24u32) | ((a1 as u32) << 16u32) | ((a2 as u32) << 8u32) | (a3 as u32) == ((
        b0 as u32) << 24u32) | ((b1 as u32) << 16u32) | ((b2 as u32) << 8u32) | (b3 as u32) ==> a0
            == b0 && a1 == b1 && a2 == b2 && a3 == b3,
{
}

/// The destination callsign of a valid network, as bytes, and the network
/// read back from them.
proof fn lemma_destination_bytes(net: Seq<char>)
    requires
        is_valid_network(net),
    ensures
        encode_utf8(destination_callsign(net)) == seq![67u8, 72u8, 84u8] + ascii_bytes(net),
        valid_utf8(encode_utf8(destination_callsign(net)).skip(3)),
        decode_utf8(encode_utf8(destination_callsign(net)).skip(3)) == net,
{
    let dest = destination_callsign(net);
    assert(is_ascii_chars(net));
    assert(is_ascii_chars(dest));
    lemma_ascii_chars_bytes(dest);
    lemma_ascii_chars_bytes(net);
    assert(ascii_bytes(dest) =~= seq![67u8, 72u8, 84u8] + ascii_bytes(net));
    assert(encode_utf8(dest).skip(3) =~= ascii_bytes(net));
    assert forall|i: int| 0 <= i < ascii_bytes(net).len() implies #[trigger] ascii_bytes(net)[i]
        < 128 by {
        assert((net[i] as u32) < 128);
    }
    lemma_ascii_utf8(ascii_bytes(net));
}

/// Round trip: the frame of a valid transmission, read with the
/// transmission's own network identifier as prefix, gives the transmission back.
pub proof fn lemma_transmission_round_trip(t: TransmissionView)
    requires
        is_valid_transmission(t),
    ensures
        parse_transmission(transmission_frame(t), t.network) == Ok::<TransmissionView, Ax25Error>(t),
{
    let f = transmission_frame(t);
    let cmd = command_bytes(t.command, t.network);
    let dest = destination_callsign(t.network);
    let code = version_code(t.version);
    let crc = crc32_of(checksum_input(t.sender, encode_utf8(dest), code, cmd));
    let info = cmd + be32(crc);
    lemma_destination_bytes(t.network);
    lemma_be32_bits(crc, 0, 0, 0, 0, 0, 0, 0, 0);
    assert(info.take(info.len() - 4) =~= cmd);
    assert(info.skip(info.len() - 4) =~= be32(crc));
    lemma_command_round_trip(t.command, t.network);
    assert(t.sender == (StationView { callsign: t.sender.callsign, ssid: t.sender.ssid }));
}

/// A frame whose destination callsign does not begin with `CHT` is rejected
/// as not Chatteroo, whatever else it holds.
pub proof fn lemma_foreign_destination_rejected(f: LinkFrameView, p: Seq<char>)
    requires
        ({
            let d = encode_utf8(f.destination.callsign);
            !(d.len() >= 3 && d[0] == 67 && d[1] == 72 && d[2] == 84)
        }),
    ensures
        parse_transmission(f, p) == Err::<TransmissionView, Ax25Error>(Ax25Error::NotChatteroo),
{
}

/// Flipping any one bit of the checksum at the end of a valid transmission's
/// payload makes the frame fail its integrity check.
pub proof fn lemma_checksum_bit_flip_detected(t: TransmissionView, k: int, bit: u8)
    requires
        is_valid_transmission(t),
        bit < 8,
        transmission_frame(t).info->0.len() - 4 <= k < transmission_frame(t).info->0.len(),
    ensures
        ({
            let f = transmission_frame(t);
            let info = f.info->0;
            let flipped = LinkFrameView {
                info: Some(info.update(k, info[k] ^ (1u8 << bit))),
                ..f
            };
            parse_transmission(flipped, t.network) == Err::<TransmissionView, Ax25Error>(
                Ax25Error::CrcMismatch,
            )
        }),
{
    let f = transmission_frame(t);
    let info = f.info->0;
    let x = info[k];
    let y = x ^ (1u8 << bit);
    assert(y != x) by (bit_vector)
        requires
            y == x ^ (1u8 << bit),
            bit < 8,
    ;
    let g = info.update(k, y);
    let n = info.len();
    let cmd = command_bytes(t.command, t.network);
    let dest = destination_callsign(t.network);
    let code = version_code(t.version);
    let crc = crc32_of(checksum_input(t.sender, encode_utf8(dest), code, cmd));
    lemma_destination_bytes(t.network);
    assert(info =~= cmd + be32(crc));
    assert(g.take(n - 4) =~= cmd);
    let a = info.skip(n - 4);
    let b = g.skip(n - 4);
    lemma_be32_bits(crc, b[0], b[1], b[2], b[3], a[0], a[1], a[2], a[3]);
    assert(a =~= be32(crc));
    assert(b[k - (n - 4)] != a[k - (n - 4)]);
}

} // verus!
