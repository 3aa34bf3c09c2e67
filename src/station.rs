//! Station identifiers for participants in the Chatteroo network.
//!
//! A station identifier is a callsign and an SSID from 0 to 9. Stations travel
//! in a compact binary form over a 6-bit alphabet, packed big-endian, so that a
//! value may span two bytes:
//!
//! * 0-25 are callsign letters `A` to `Z`
//! * 26-35 are callsign digits `0` to `9`
//! * 36-45 are SSIDs 0 to 9 (callsign complete)
//! * 46-55 are SSIDs 0 to 9 (the network name must be put in front of the callsign)
//!
//! An SSID value ends the identifier; unused bits left in its last byte are
//! padding.

use vstd::prelude::*;
use vstd::string::StringSliceAdditionalSpecFns;
use vstd::utf8::*;

use crate::checksum::{crc32, crc32_extend, crc32_of, crc_running};
use crate::error::Error;
use crate::text::{ascii_bytes, lemma_ascii_chars_bytes, lemma_ascii_utf8, push_bytes, string_from_utf8};
use crate::network::{all_ident_chars, check_ident_chars, is_ident_byte, is_ident_char};

verus! {

broadcast use vstd::seq_lib::group_seq_properties;

/// Mathematical form of a station: its callsign characters and its SSID.
pub struct StationView {
    pub callsign: Seq<char>,
    pub ssid: u8,
}

/// A valid station: a non-empty callsign of `[A-Z0-9]` and an SSID of at most 9.
pub open spec fn is_valid_station(s: StationView) -> bool {
    s.callsign.len() > 0 && all_ident_chars(s.callsign) && s.ssid <= 9
}

/// The 6-bit value of a callsign byte (`A`-`Z` then `0`-`9`).
pub open spec fn symbol_of_byte(b: u8) -> u8 {
    if b >= 65 {
        (b - 65) as u8
    } else {
        (b - 48 + 26) as u8
    }
}

/// The callsign byte of a 6-bit value below 36.
pub open spec fn byte_of_symbol(v: u8) -> u8 {
    if v < 26 {
        (v + 65) as u8
    } else {
        (v - 26 + 48) as u8
    }
}

/// Whether the callsign is sent without the network prefix `p`: `p` is
/// non-empty, starts the callsign, and leaves a non-empty remainder.
pub open spec fn elides(callsign: Seq<char>, p: Seq<char>) -> bool {
    0 < p.len() < callsign.len() && callsign.subrange(0, p.len() as int) == p
}

/// The 6-bit values that encode station `s` given network prefix `p`.
pub open spec fn encoded_symbols(s: StationView, p: Seq<char>) -> Seq<u8> {
    let e = elides(s.callsign, p);
    let body = if e {
        s.callsign.skip(p.len() as int)
    } else {
        s.callsign
    };
    let term = if e {
        (s.ssid + 46) as u8
    } else {
        (s.ssid + 36) as u8
    };
    body.map_values(|c: char| symbol_of_byte(c as u8)).push(term)
}

/// The value at position `i`, or 0 past the end.
pub open spec fn symbol_or_zero(v: Seq<u8>, i: int) -> u8 {
    if 0 <= i < v.len() {
        v[i]
    } else {
        0
    }
}

/// Byte `k` of the big-endian packing of 6-bit values `v`: each group of four
/// values fills three bytes.
pub open spec fn packed_byte(v: Seq<u8>, k: int) -> u8 {
    let g = k / 3;
    let a = symbol_or_zero(v, 4 * g);
    let b = symbol_or_zero(v, 4 * g + 1);
    let c = symbol_or_zero(v, 4 * g + 2);
    let d = symbol_or_zero(v, 4 * g + 3);
    if k % 3 == 0 {
        (a << 2) | (b >> 4)
    } else if k % 3 == 1 {
        (b << 4) | (c >> 2)
    } else {
        (c << 6) | d
    }
}

/// Number of bytes that `n` packed 6-bit values occupy: `ceil(6n / 8)`.
pub open spec fn packed_len(n: nat) -> nat {
    3 * (n / 4) + n % 4
}

/// The packing of 6-bit values `v` into bytes, zero bits padding the last byte.
pub open spec fn pack_symbols(v: Seq<u8>) -> Seq<u8> {
    Seq::new(packed_len(v.len()), |k: int| packed_byte(v, k))
}

/// The compact encoding of station `s` given network prefix `p`.
#[verifier::opaque]
pub open spec fn station_bytes(s: StationView, p: Seq<char>) -> Seq<u8> {
    pack_symbols(encoded_symbols(s, p))
}

/// Index of the last byte that holds any bit of the 6-bit value at position `i`.
pub open spec fn symbol_end(i: int) -> int {
    3 * (i / 4) + if i % 4 == 3 {
        2
    } else {
        i % 4
    }
}

/// The 6-bit value at position `i` of byte stream `b` (meaningful when
/// `symbol_end(i) < b.len()`).
pub open spec fn symbol_at(b: Seq<u8>, i: int) -> u8 {
    let base = 3 * (i / 4);
    if i % 4 == 0 {
        b[base] >> 2
    } else if i % 4 == 1 {
        ((b[base] & 3) << 4) | (b[base + 1] >> 4)
    } else if i % 4 == 2 {
        ((b[base + 1] & 15) << 2) | (b[base + 2] >> 6)
    } else {
        b[base + 2] & 63
    }
}

/// Reads values from position `i` on: the position of the first value of 36 or
/// more, if the stream holds it and it is an SSID value (at most 55).
pub open spec fn find_terminal(b: Seq<u8>, i: nat) -> Option<nat>
    decreases b.len() - symbol_end(i as int), 3 - i % 4,
{
    if symbol_end(i as int) >= b.len() {
        None
    } else if symbol_at(b, i as int) < 36 {
        find_terminal(b, i + 1)
    } else if symbol_at(b, i as int) <= 55 {
        Some(i)
    } else {
        None
    }
}

/// The station at the start of `b`, and how many bytes it takes, when `b`
/// starts with a compact station identifier read with network prefix `p`.
///
/// The callsign values before the SSID must be at least one; an SSID value in
/// 46..=55 puts `p` in front of them, which must then be a string of `[A-Z0-9]`.
#[verifier::opaque]
pub open spec fn parse_station(b: Seq<u8>, p: Seq<char>) -> Option<(StationView, int)> {
    match find_terminal(b, 0) {
        None => None,
        Some(t) => {
            let term = symbol_at(b, t as int);
            let body = Seq::new(t, |j: int| byte_of_symbol(symbol_at(b, j)) as char);
            let elided = term >= 46;
            if t == 0 || (elided && !all_ident_chars(p)) {
                None
            } else {
                Some(
                    (
                        StationView {
                            callsign: if elided {
                                p + body
                            } else {
                                body
                            },
                            ssid: if elided {
                                (term - 46) as u8
                            } else {
                                (term - 36) as u8
                            },
                        },
                        symbol_end(t as int) + 1,
                    ),
                )
            }
        },
    }
}

/// Bit facts of the packing: each value comes back out of the bytes it was
/// packed into.
proof fn lemma_unpack_bits(a: u8, b: u8, c: u8, d: u8)
    by (bit_vector)
    requires
        a < 64,
        b < 64,
        c < 64,
        d < 64,
    ensures
        ((a << 2) | (b >> 4)) >> 2 == a,
        ((((a << 2) | (b >> 4)) & 3) << 4) | (((b << 4) | (c >> 2)) >> 4) == b,
        ((((b << 4) | (c >> 2)) & 15) << 2) | (((c << 6) | d) >> 6) == c,
        ((c << 6) | d) & 63 == d,
{
}

/// An ident character survives the trip through its 6-bit value.
proof fn lemma_symbol_of_char(c: char)
    requires
        is_ident_char(c),
    ensures
        symbol_of_byte(c as u8) < 36,
        byte_of_symbol(symbol_of_byte(c as u8)) as char == c,
        is_ident_byte(c as u8),
{
}

/// Value `j` of `v` is read back from the packed bytes, whatever follows them.
proof fn lemma_pack_symbol(v: Seq<u8>, j: int, rest: Seq<u8>)
    requires
        forall|k: int| 0 <= k < v.len() ==> #[trigger] v[k] < 64,
        0 <= j < v.len(),
    ensures
        symbol_end(j) < packed_len(v.len()),
        symbol_at(pack_symbols(v) + rest, j) == v[j],
{
    let g = j / 4;
    let bs = pack_symbols(v) + rest;
    let n = v.len();
    assert(symbol_end(j) < packed_len(n));
    let a = symbol_or_zero(v, 4 * g);
    let b = symbol_or_zero(v, 4 * g + 1);
    let c = symbol_or_zero(v, 4 * g + 2);
    let d = symbol_or_zero(v, 4 * g + 3);
    lemma_unpack_bits(a, b, c, d);
    if j % 4 == 0 {
        assert(bs[3 * g] == packed_byte(v, 3 * g));
    } else if j % 4 == 1 {
        assert(bs[3 * g] == packed_byte(v, 3 * g));
        assert(bs[3 * g + 1] == packed_byte(v, 3 * g + 1));
    } else if j % 4 == 2 {
        assert(bs[3 * g + 1] == packed_byte(v, 3 * g + 1));
        assert(bs[3 * g + 2] == packed_byte(v, 3 * g + 2));
    } else {
        assert(bs[3 * g + 2] == packed_byte(v, 3 * g + 2));
    }
}

/// Reading from position `i`, the terminal found is the last value of `v`
/// when the bytes carry `v` and only its last value is 36 or more.
proof fn lemma_find_terminal(bs: Seq<u8>, v: Seq<u8>, i: nat)
    requires
        v.len() > 0,
        i < v.len(),
        forall|j: int| 0 <= j < v.len() ==> #[trigger] symbol_end(j) < bs.len(),
        forall|j: int| 0 <= j < v.len() ==> #[trigger] symbol_at(bs, j) == v[j],
        forall|j: int| 0 <= j < v.len() - 1 ==> #[trigger] v[j] < 36,
        36 <= v.last() <= 55,
    ensures
        find_terminal(bs, i) == Some((v.len() - 1) as nat),
    decreases v.len() - i,
{
    assert(symbol_at(bs, i as int) == v[i as int]);
    if i < v.len() - 1 {
        lemma_find_terminal(bs, v, i + 1);
    }
}

/// Decoding the compact form of a valid station, followed by any bytes, gives
/// back the station and the length of its encoding.
pub proof fn lemma_parse_station_bytes(s: StationView, p: Seq<char>, rest: Seq<u8>)
    requires
        is_valid_station(s),
    ensures
        parse_station(station_bytes(s, p) + rest, p) == Some(
            (s, station_bytes(s, p).len() as int),
        ),
{
    reveal(parse_station);
    reveal(station_bytes);
    let v = encoded_symbols(s, p);
    let n = v.len();
    let e = elides(s.callsign, p);
    let body = if e {
        s.callsign.skip(p.len() as int)
    } else {
        s.callsign
    };
    let bs = station_bytes(s, p) + rest;
    assert forall|k: int| 0 <= k < body.len() implies is_ident_char(#[trigger] body[k]) by {
        if e {
            assert(body[k] == s.callsign[k + p.len()]);
        }
    }
    assert forall|k: int| 0 <= k < n - 1 implies #[trigger] v[k] < 36 by {
        lemma_symbol_of_char(body[k]);
    }
    assert forall|k: int| 0 <= k < n implies #[trigger] v[k] < 64 by {
        if k < n - 1 {
            lemma_symbol_of_char(body[k]);
        }
    }
    assert forall|j: int| 0 <= j < n implies #[trigger] symbol_end(j) < bs.len() by {
        lemma_pack_symbol(v, j, rest);
    }
    assert forall|j: int| 0 <= j < n implies #[trigger] symbol_at(bs, j) == v[j] by {
        lemma_pack_symbol(v, j, rest);
    }
    lemma_find_terminal(bs, v, 0);
    let t = (n - 1) as nat;
    let decoded = Seq::new(t, |j: int| byte_of_symbol(symbol_at(bs, j)) as char);
    assert forall|j: int| 0 <= j < t implies #[trigger] decoded[j] == body[j] by {
        lemma_symbol_of_char(body[j]);
        assert(symbol_at(bs, j) == v[j]);
    }
    assert(decoded =~= body);
    if e {
        assert(s.callsign =~= p + body);
        assert forall|k: int| 0 <= k < p.len() implies is_ident_char(#[trigger] p[k]) by {
            assert(p[k] == s.callsign[k]);
        }
    }
    assert(symbol_end(t as int) + 1 == packed_len(n));
}

/// Round trip: decoding the compact form of a valid station with the same
/// prefix gives the station back, and nothing is left over.
pub proof fn lemma_station_round_trip(s: StationView, p: Seq<char>)
    requires
        is_valid_station(s),
    ensures
        parse_station(station_bytes(s, p), p) == Some((s, station_bytes(s, p).len() as int)),
        station_bytes(s, p).skip(station_bytes(s, p).len() as int) == Seq::<u8>::empty(),
{
    reveal(station_bytes);
    lemma_parse_station_bytes(s, p, Seq::empty());
    assert(station_bytes(s, p) + Seq::<u8>::empty() =~= station_bytes(s, p));
    assert(station_bytes(s, p).skip(station_bytes(s, p).len() as int) =~= Seq::<u8>::empty());
}

/// Three encodings laid end to end are read back one after the other, in
/// order, each parse starting where the previous one stopped, with nothing
/// left at the end.
pub proof fn lemma_parse_concatenated(
    s1: StationView,
    s2: StationView,
    s3: StationView,
    p: Seq<char>,
)
    requires
        is_valid_station(s1),
        is_valid_station(s2),
        is_valid_station(s3),
    ensures
        ({
            let b1 = station_bytes(s1, p);
            let b2 = station_bytes(s2, p);
            let b3 = station_bytes(s3, p);
            let all = b1 + b2 + b3;
            &&& parse_station(all, p) == Some((s1, b1.len() as int))
            &&& parse_station(all.skip(b1.len() as int), p) == Some((s2, b2.len() as int))
            &&& parse_station(all.skip((b1.len() + b2.len()) as int), p) == Some((s3, b3.len() as int))
            &&& all.skip((b1.len() + b2.len() + b3.len()) as int) == Seq::<u8>::empty()
        }),
{
    reveal(station_bytes);
    let b1 = station_bytes(s1, p);
    let b2 = station_bytes(s2, p);
    let b3 = station_bytes(s3, p);
    let all = b1 + b2 + b3;
    assert(all =~= b1 + (b2 + b3));
    lemma_parse_station_bytes(s1, p, b2 + b3);
    assert(all.skip(b1.len() as int) =~= b2 + b3);
    lemma_parse_station_bytes(s2, p, b3);
    assert(all.skip((b1.len() + b2.len()) as int) =~= b3 + Seq::<u8>::empty());
    lemma_parse_station_bytes(s3, p, Seq::empty());
    assert(all.skip((b1.len() + b2.len() + b3.len()) as int) =~= Seq::<u8>::empty());
}

/// Reading values from position `i` of a cut-off stream fails when the
/// terminal value lies past the cut and the values before it are callsign values.
proof fn lemma_find_terminal_cut(full: Seq<u8>, k: int, v: Seq<u8>, i: nat)
    requires
        v.len() > 0,
        i < v.len(),
        0 <= k <= full.len(),
        forall|j: int| 0 <= j < v.len() ==> #[trigger] symbol_end(j) < full.len(),
        forall|j: int| 0 <= j < v.len() ==> #[trigger] symbol_at(full, j) == v[j],
        forall|j: int| 0 <= j < v.len() - 1 ==> #[trigger] v[j] < 36,
        symbol_end(v.len() - 1) >= k,
    ensures
        find_terminal(full.subrange(0, k), i) is None,
    decreases v.len() - i,
{
    let cut = full.subrange(0, k);
    if symbol_end(i as int) < k {
        let base: int = 3 * (i / 4) as int;
        assert(symbol_at(cut, i as int) == symbol_at(full, i as int)) by {
            if i % 4 == 0 {
                assert(cut[base] == full[base]);
            } else if i % 4 == 1 {
                assert(cut[base] == full[base]);
                assert(cut[base + 1] == full[base + 1]);
            } else if i % 4 == 2 {
                assert(cut[base + 1] == full[base + 1]);
                assert(cut[base + 2] == full[base + 2]);
            } else {
                assert(cut[base + 2] == full[base + 2]);
            }
        }
        assert(i < v.len() - 1);
        lemma_find_terminal_cut(full, k, v, i + 1);
    }
}

/// Every proper prefix of a station's compact form is rejected.
pub proof fn lemma_truncated_station_rejected(s: StationView, p: Seq<char>, k: int)
    requires
        is_valid_station(s),
        0 <= k < station_bytes(s, p).len(),
    ensures
        parse_station(station_bytes(s, p).subrange(0, k), p) is None,
{
    reveal(parse_station);
    reveal(station_bytes);
    let v = encoded_symbols(s, p);
    let n = v.len();
    let full = station_bytes(s, p);
    lemma_parse_station_bytes(s, p, Seq::empty());
    assert(full + Seq::<u8>::empty() =~= full);
    let e = elides(s.callsign, p);
    let body = if e {
        s.callsign.skip(p.len() as int)
    } else {
        s.callsign
    };
    assert forall|j: int| 0 <= j < body.len() implies is_ident_char(#[trigger] body[j]) by {
        if e {
            assert(body[j] == s.callsign[j + p.len()]);
        }
    }
    assert forall|j: int| 0 <= j < n - 1 implies #[trigger] v[j] < 36 by {
        lemma_symbol_of_char(body[j]);
    }
    assert forall|j: int| 0 <= j < n implies #[trigger] v[j] < 64 by {
        if j < n - 1 {
            lemma_symbol_of_char(body[j]);
        }
    }
    assert forall|j: int| 0 <= j < n implies #[trigger] symbol_end(j) < full.len() by {
        lemma_pack_symbol(v, j, Seq::empty());
    }
    assert forall|j: int| 0 <= j < n implies #[trigger] symbol_at(full, j) == v[j] by {
        lemma_pack_symbol(v, j, Seq::empty());
    }
    assert(symbol_end(n - 1) + 1 == packed_len(n));
    lemma_find_terminal_cut(full, k, v, 0);
}

/// A terminal found from position `i` lies within the stream.
proof fn lemma_find_terminal_in_bounds(b: Seq<u8>, i: nat)
    ensures
        find_terminal(b, i) matches Some(t) ==> i <= t && symbol_end(t as int) < b.len() && 36
            <= symbol_at(b, t as int) <= 55,
    decreases b.len() - symbol_end(i as int), 3 - i % 4,
{
    if symbol_end(i as int) < b.len() && symbol_at(b, i as int) < 36 {
        lemma_find_terminal_in_bounds(b, i + 1);
    }
}

/// A parsed station takes at least one byte and no more than are given.
pub proof fn lemma_parse_station_len(b: Seq<u8>, p: Seq<char>)
    ensures
        parse_station(b, p) matches Some((s, n)) ==> 1 <= n <= b.len() && is_valid_station(s),
{
    reveal(parse_station);
    lemma_find_terminal_in_bounds(b, 0);
    if let Some((s, n)) = parse_station(b, p) {
        let t = find_terminal(b, 0)->0;
        let term = symbol_at(b, t as int);
        let body = Seq::new(t, |j: int| byte_of_symbol(symbol_at(b, j)) as char);
        lemma_find_terminal_values(b, 0);
        assert forall|j: int| 0 <= j < t implies is_ident_char(#[trigger] body[j]) by {
            assert(symbol_at(b, j) < 36);
        }
        if term >= 46 {
            assert forall|j: int| 0 <= j < s.callsign.len() implies is_ident_char(
                #[trigger] s.callsign[j],
            ) by {
                if j >= p.len() {
                    assert(s.callsign[j] == body[j - p.len()]);
                }
            }
        } else {
            assert(s.callsign =~= body);
        }
        assert(s.callsign.len() > 0);
        assert(s.ssid <= 9);
        assert(1 <= n <= b.len());
    }
}

/// The values before a terminal found from position `i` are callsign values.
proof fn lemma_find_terminal_values(b: Seq<u8>, i: nat)
    ensures
        find_terminal(b, i) matches Some(t) ==> (forall|j: int|
            i <= j < t ==> #[trigger] symbol_at(b, j) < 36),
    decreases b.len() - symbol_end(i as int), 3 - i % 4,
{
    if symbol_end(i as int) < b.len() && symbol_at(b, i as int) < 36 {
        lemma_find_terminal_values(b, i + 1);
    }
}

/// Bit facts for filling in a byte whose low bits were zero.
proof fn lemma_fill_bits(x: u8, y: u8)
    by (bit_vector)
    ensures
        x | (0u8 >> 4u8) == x,
        x | (0u8 >> 2u8) == x,
        x | 0u8 == x,
{
}

/// Packing one more value changes only the last byte and may add one.
proof fn lemma_pack_push(v: Seq<u8>, i: int)
    requires
        0 <= i < v.len(),
    ensures
        ({
            let before = pack_symbols(v.subrange(0, i));
            let after = pack_symbols(v.subrange(0, i + 1));
            let x = v[i];
            if i % 4 == 0 {
                after == before.push(x << 2)
            } else if i % 4 == 1 {
                after == before.update(before.len() - 1, before.last() | (x >> 4)).push(x << 4)
            } else if i % 4 == 2 {
                after == before.update(before.len() - 1, before.last() | (x >> 2)).push(x << 6)
            } else {
                after == before.update(before.len() - 1, before.last() | x)
            }
        }),
{
    let w0 = v.subrange(0, i);
    let w1 = v.subrange(0, i + 1);
    let before = pack_symbols(w0);
    let after = pack_symbols(w1);
    let x = v[i];
    let g = i / 4;
    assert forall|k: int| 0 <= k < 4 * g implies symbol_or_zero(w0, k) == symbol_or_zero(w1, k)
        && #[trigger] symbol_or_zero(v, k) == symbol_or_zero(w1, k) by {}
    assert forall|k: int| 0 <= k < 3 * g implies #[trigger] packed_byte(w0, k) == packed_byte(w1, k) by {
        let h = k / 3;
        assert(4 * h + 3 < 4 * g);
        assert(symbol_or_zero(w0, 4 * h) == symbol_or_zero(w1, 4 * h));
        assert(symbol_or_zero(w0, 4 * h + 1) == symbol_or_zero(w1, 4 * h + 1));
        assert(symbol_or_zero(w0, 4 * h + 2) == symbol_or_zero(w1, 4 * h + 2));
        assert(symbol_or_zero(w0, 4 * h + 3) == symbol_or_zero(w1, 4 * h + 3));
    }
    let a = symbol_or_zero(w1, 4 * g);
    let b = symbol_or_zero(w1, 4 * g + 1);
    let c = symbol_or_zero(w1, 4 * g + 2);
    lemma_fill_bits(a << 2, 0);
    lemma_fill_bits(b << 4, 0);
    lemma_fill_bits(c << 6, 0);
    if i % 4 == 0 {
        assert(packed_byte(w1, 3 * g) == (x << 2) | (0u8 >> 4u8));
        assert(after =~= before.push(x << 2));
    } else if i % 4 == 1 {
        assert(packed_byte(w0, 3 * g) == (a << 2) | (0u8 >> 4u8));
        assert(packed_byte(w1, 3 * g + 1) == (x << 4) | (0u8 >> 2u8));
        assert(after =~= before.update(before.len() - 1, before.last() | (x >> 4)).push(x << 4));
    } else if i % 4 == 2 {
        assert(packed_byte(w0, 3 * g + 1) == (b << 4) | (0u8 >> 2u8));
        assert(packed_byte(w1, 3 * g + 2) == (x << 6) | 0u8);
        assert(after =~= before.update(before.len() - 1, before.last() | (x >> 2)).push(x << 6));
    } else {
        assert(packed_byte(w0, 3 * g + 2) == (c << 6) | 0u8);
        assert(after =~= before.update(before.len() - 1, before.last() | x));
    }
}

/// The characters of the display form `CALLSIGN-SSID`.
pub open spec fn display_chars(s: StationView) -> Seq<char> {
    s.callsign + seq!['-', ((48 + s.ssid) as u8) as char]
}

/// The bytes that a station contributes to a CRC-32: the callsign, then one
/// byte holding the SSID.
pub open spec fn hash_bytes(s: StationView) -> Seq<u8> {
    ascii_bytes(s.callsign).push(s.ssid)
}

/// The bucket of a station: its CRC-32 modulo 16.
pub open spec fn bucket_of(s: StationView) -> u8 {
    (crc32_of(hash_bytes(s)) % 16) as u8
}

/// Unique identifier for a participant in the Chatteroo network: a callsign of
/// uppercase ASCII letters and digits, and an SSID from 0 to 9.
#[derive(Debug)]
pub struct Station {
    callsign: String,
    ssid: u8,
}

impl View for Station {
    type V = StationView;

    closed spec fn view(&self) -> StationView {
        StationView { callsign: self.callsign@, ssid: self.ssid }
    }
}

impl Clone for Station {
    fn clone(&self) -> (r: Station)
        ensures
            r@ == self@,
    {
        proof {
            use_type_invariant(self);
        }
        Station { callsign: self.callsign.clone(), ssid: self.ssid }
    }
}

impl PartialEq for Station {
    fn eq(&self, other: &Station) -> (r: bool)
        ensures
            r == (self@ == other@),
    {
        self.ssid == other.ssid && self.callsign == other.callsign
    }
}

impl vstd::std_specs::cmp::PartialEqSpecImpl for Station {
    open spec fn obeys_eq_spec() -> bool {
        true
    }

    open spec fn eq_spec(&self, other: &Station) -> bool {
        self@ == other@
    }
}

impl Eq for Station {

}

/// Whether ASCII callsign `cs` is sent without prefix `p` (see `elides`).
fn prefix_elides(cs: &str, p: &str) -> (r: bool)
    requires
        all_ident_chars(cs@),
    ensures
        r == elides(cs@, p@),
{
    proof {
        assert(is_ascii_chars(cs@));
        vstd::string::is_ascii_spec_bytes(cs);
    }
    if !p.is_ascii() {
        proof {
            if elides(cs@, p@) {
                let k = choose|k: int| 0 <= k < p@.len() && !('\0' <= #[trigger] p@[k] <= '\u{7f}');
                assert(p@[k] == cs@[k]);
            }
        }
        return false;
    }
    proof {
        vstd::string::is_ascii_spec_bytes(p);
    }
    let cb = cs.as_bytes();
    let pb = p.as_bytes();
    if pb.len() == 0 || pb.len() >= cb.len() {
        return false;
    }
    let n = pb.len();
    let mut i: usize = 0;
    while i < n
        invariant
            n == pb@.len() == p@.len(),
            n < cb@.len() == cs@.len(),
            cb@ == Seq::new(cs@.len(), |k: int| cs@[k] as u8),
            pb@ == Seq::new(p@.len(), |k: int| p@[k] as u8),
            vstd::string::is_ascii(p),
            is_ascii_chars(cs@),
            0 <= i <= n,
            forall|k: int| 0 <= k < i ==> cs@[k] == #[trigger] p@[k],
        decreases n - i,
    {
        if cb[i] != pb[i] {
            assert(cs@[i as int] != p@[i as int]);
            return false;
        }
        assert((cs@[i as int] as u32) < 128 && (p@[i as int] as u32) < 128);
        assert(cs@[i as int] == p@[i as int]);
        i += 1;
    }
    assert(cs@.subrange(0, n as int) =~= p@);
    true
}

/// Appends 6-bit value `x` as value number `i` of the packing of `v`.
fn push_symbol(out: &mut Vec<u8>, i: usize, x: u8, Ghost(v): Ghost<Seq<u8>>)
    requires
        i < v.len(),
        v[i as int] == x,
        old(out)@ == pack_symbols(v.subrange(0, i as int)),
    ensures
        final(out)@ == pack_symbols(v.subrange(0, i as int + 1)),
{
    proof {
        lemma_pack_push(v, i as int);
    }
    let r = i % 4;
    if r == 0 {
        out.push(x << 2);
    } else {
        let last = out.len() - 1;
        let b = out[last];
        if r == 1 {
            out.set(last, b | (x >> 4));
            out.push(x << 4);
        } else if r == 2 {
            out.set(last, b | (x >> 2));
            out.push(x << 6);
        } else {
            out.set(last, b | x);
        }
    }
}

impl Station {
    /// Every `Station` value is valid.
    #[verifier::type_invariant]
    spec fn inv(&self) -> bool {
        is_valid_station(self@)
    }

    /// Builds a station from its components, checking the callsign first and
    /// then the SSID.
    pub fn new(callsign: String, ssid: u8) -> (r: Result<Station, Error>)
        ensures
            r matches Ok(s) ==> s@ == (StationView { callsign: callsign@, ssid }),
            r is Ok <==> is_valid_station(StationView { callsign: callsign@, ssid }),
            r == Err::<Station, Error>(Error::InvalidCallsign) <==> (callsign@.len() == 0
                || !all_ident_chars(callsign@)),
            r == Err::<Station, Error>(Error::InvalidSsid) <==> (callsign@.len() > 0
                && all_ident_chars(callsign@) && ssid > 9),
    {
        if !check_ident_chars(callsign.as_str()) || callsign.as_str().is_empty() {
            return Err(Error::InvalidCallsign);
        }
        if ssid > 9 {
            return Err(Error::InvalidSsid);
        }
        Ok(Station { callsign, ssid })
    }

    /// Callsign part of the station identifier, e.g. `VK7XT`.
    pub fn callsign(&self) -> (r: &str)
        ensures
            r@ == self@.callsign,
    {
        self.callsign.as_str()
    }

    /// Secondary Station Identifier (SSID), a number from 0 to 9.
    pub fn ssid(&self) -> (r: u8)
        ensures
            r == self@.ssid,
            r <= 9,
    {
        proof {
            use_type_invariant(self);
        }
        self.ssid
    }

    /// The callsign's bytes (ASCII).
    fn callsign_bytes(&self) -> (r: &[u8])
        ensures
            r@ == ascii_bytes(self@.callsign),
    {
        proof {
            use_type_invariant(self);
            assert(is_ascii_chars(self.callsign@));
        }
        let cs = self.callsign.as_str();
        proof {
            vstd::string::is_ascii_spec_bytes(cs);
        }
        let r = cs.as_bytes();
        assert(r@ =~= ascii_bytes(self@.callsign));
        r
    }

    /// Compact binary encoding of this station.
    ///
    /// When `net_prefix` is non-empty and the callsign starts with it and goes
    /// on past it, only the rest of the callsign is sent, with an SSID value
    /// from the range that tells the reader to put the prefix back.
    pub fn encoded(&self, net_prefix: &str) -> (r: Vec<u8>)
        ensures
            r@ == station_bytes(self@, net_prefix@),
    {
        proof {
            reveal(station_bytes);
        }
        proof {
            use_type_invariant(self);
        }
        let cb = self.callsign_bytes();
        let elide = prefix_elides(self.callsign.as_str(), net_prefix);
        let start: usize = if elide {
            net_prefix.as_bytes().len()
        } else {
            0
        };
        proof {
            if elide {
                vstd::string::is_ascii_spec_bytes(net_prefix);
                assert(net_prefix@ =~= self@.callsign.subrange(0, net_prefix@.len() as int));
                assert(is_ascii_chars(net_prefix@));
            }
        }
        let ghost v = encoded_symbols(self@, net_prefix@);
        let ghost body = if elide {
            self@.callsign.skip(net_prefix@.len() as int)
        } else {
            self@.callsign
        };
        let clen = cb.len();
        let n = clen - start;
        assert(body.len() == n);
        let mut out: Vec<u8> = Vec::new();
        assert(v.subrange(0, 0) =~= Seq::<u8>::empty());
        assert(out@ =~= pack_symbols(v.subrange(0, 0)));
        let mut i: usize = 0;
        while i < n
            invariant
                n == body.len(),
                v.len() == n + 1,
                v == encoded_symbols(self@, net_prefix@),
                body == (if elide {
                    self@.callsign.skip(net_prefix@.len() as int)
                } else {
                    self@.callsign
                }),
                elide == elides(self@.callsign, net_prefix@),
                start + n == clen,
                clen == cb@.len(),
                cb@ == ascii_bytes(self@.callsign),
                is_valid_station(self@),
                elide ==> start == net_prefix@.len(),
                !elide ==> start == 0,
                0 <= i <= n,
                out@ == pack_symbols(v.subrange(0, i as int)),
            decreases n - i,
        {
            let c = cb[start + i];
            assert(body[i as int] == self@.callsign[start + i]);
            assert(c == body[i as int] as u8);
            proof {
                lemma_symbol_of_char(body[i as int]);
            }
            let x = if c >= 65 {
                c - 65
            } else {
                c - 48 + 26
            };
            assert(v[i as int] == x);
            push_symbol(&mut out, i, x, Ghost(v));
            i += 1;
        }
        let term: u8 = if elide {
            self.ssid + 46
        } else {
            self.ssid + 36
        };
        push_symbol(&mut out, n, term, Ghost(v));
        assert(v.subrange(0, n + 1) =~= v);
        out
    }

    /// The display form `CALLSIGN-SSID`, e.g. `VK7XT-5`, as bytes.
    pub fn display_bytes(&self) -> (r: Vec<u8>)
        ensures
            r@ == ascii_bytes(display_chars(self@)),
    {
        proof {
            use_type_invariant(self);
        }
        let mut out: Vec<u8> = Vec::new();
        push_bytes(&mut out, self.callsign_bytes());
        out.push(45);
        out.push(48 + self.ssid);
        assert(out@ =~= ascii_bytes(display_chars(self@)));
        out
    }

    /// The display form `CALLSIGN-SSID`, e.g. `VK7XT-5`.
    pub fn display(&self) -> (r: String)
        ensures
            r@ == display_chars(self@),
    {
        proof {
            use_type_invariant(self);
        }
        let bytes = self.display_bytes();
        let ghost chars = display_chars(self@);
        proof {
            assert(is_ascii_chars(chars));
            lemma_ascii_chars_bytes(chars);
            lemma_ascii_utf8(bytes@);
        }
        match string_from_utf8(bytes) {
            Some(s) => s,
            None => {
                assert(false);
                String::new()
            },
        }
    }

    /// Feeds this station to a running CRC-32: the callsign bytes, then one
    /// byte holding the SSID.
    pub fn hash(&self, hasher: &mut crc32fast::Hasher)
        ensures
            crc_running(*final(hasher)) == crc32_extend(
                crc32_extend(crc_running(*old(hasher)), ascii_bytes(self@.callsign)),
                seq![self@.ssid],
            ),
    {
        hasher.update(self.callsign_bytes());
        let ssid: [u8; 1] = [self.ssid];
        let one = ssid.as_slice();
        assert(one@ =~= seq![self.ssid]);
        hasher.update(one);
    }

    /// Stably allocates this station to one of 16 buckets, by the CRC-32 of
    /// its callsign bytes followed by its SSID byte.
    pub fn bucket(&self) -> (r: u8)
        ensures
            r == bucket_of(self@),
            r < 16,
    {
        let mut data: Vec<u8> = Vec::new();
        push_bytes(&mut data, self.callsign_bytes());
        data.push(self.ssid);
        let crc = crc32(data.as_slice());
        (crc % 16) as u8
    }

    /// Parses a station from the start of `encoded`.
    ///
    /// On success returns the station and the bytes that follow its encoding
    /// (padding bits of its last byte skipped). An SSID value of the
    /// prefix-elided range puts `net_prefix` back in front of the callsign.
    pub fn try_parse<'a>(encoded: &'a [u8], net_prefix: &str) -> (r: Result<(Station, &'a [u8]), Error>)
        ensures
            match parse_station(encoded@, net_prefix@) {
                Some((s, n)) => r matches Ok((st, rest)) && st@ == s && rest@ == encoded@.skip(n),
                None => r == Err::<(Station, &'a [u8]), Error>(Error::InvalidStationIdentifier),
            },
    {
        proof {
            reveal(parse_station);
        }
        let ghost b = encoded@;
        let len = encoded.len();
        let mut values: Vec<u8> = Vec::new();
        let mut r: usize = 0;
        let mut group: usize = 0;
        let mut term: u8 = 0;
        loop
            invariant
                len == b.len(),
                b == encoded@,
                r < 4,
                group % 3 == 0,
                values@.len() == 4 * (group / 3) + r,
                group <= len,
                forall|j: int|
                    0 <= j < values@.len() ==> symbol_end(j) < len && #[trigger] symbol_at(b, j)
                        < 36 && values@[j] == symbol_at(b, j),
                find_terminal(b, 0) == find_terminal(b, values@.len()),
            ensures
                36 <= term <= 55,
                symbol_end(values@.len() as int) < len,
                symbol_at(b, values@.len() as int) == term,
                find_terminal(b, values@.len()) == Some(values@.len()),
            decreases len - group, 3 - r,
        {
            proof {
                reveal(parse_station);
            }
            let ghost i = values@.len();
            assert(i % 4 == r && i / 4 * 3 == group);
            let offset: usize = if r == 0 {
                0
            } else if r == 1 {
                1
            } else {
                2
            };
            assert(group + offset == symbol_end(i as int));
            if len - group <= offset {
                return Err(Error::InvalidStationIdentifier);
            }
            let x = if r == 0 {
                encoded[group] >> 2
            } else if r == 1 {
                ((encoded[group] & 3) << 4) | (encoded[group + 1] >> 4)
            } else if r == 2 {
                ((encoded[group + 1] & 15) << 2) | (encoded[group + 2] >> 6)
            } else {
                encoded[group + 2] & 63
            };
            assert(x == symbol_at(b, i as int));
            if x < 36 {
                assert(find_terminal(b, i) == find_terminal(b, i + 1));
                values.push(x);
                if r == 3 {
                    group = group + 3;
                    r = 0;
                } else {
                    r = r + 1;
                }
            } else if x <= 55 {
                assert(find_terminal(b, i) == Some(i));
                term = x;
                break ;
            } else {
                assert(find_terminal(b, i) is None);
                return Err(Error::InvalidStationIdentifier);
            }
        }
        let t = values.len();
        assert(find_terminal(b, 0) == Some(t as nat));
        assert(symbol_at(b, t as int) == term);
        assert(t % 4 == r && t / 4 * 3 == group);
        assert forall|j: int| 0 <= j < t implies #[trigger] values@[j] < 36 by {
            assert(symbol_at(b, j) < 36);
        }
        let elided = term >= 46;
        if t == 0 {
            return Err(Error::InvalidStationIdentifier);
        }
        let prefix_ok = check_ident_chars(net_prefix);
        if elided && !prefix_ok {
            return Err(Error::InvalidStationIdentifier);
        }
        let ghost body = Seq::new(t as nat, |j: int| byte_of_symbol(symbol_at(b, j)) as char);
        let mut bytes: Vec<u8> = Vec::new();
        if elided {
            push_bytes(&mut bytes, net_prefix.as_bytes());
            proof {
                assert(is_ascii_chars(net_prefix@));
                lemma_ascii_chars_bytes(net_prefix@);
            }
        }
        let ghost lead = bytes@;
        let mut k: usize = 0;
        while k < t
            invariant
                t == values@.len(),
                0 <= k <= t,
                forall|j: int| 0 <= j < t ==> #[trigger] values@[j] < 36,
                forall|j: int| 0 <= j < t ==> values@[j] == #[trigger] symbol_at(b, j),
                bytes@ == lead + Seq::new(k as nat, |j: int| byte_of_symbol(values@[j])),
            decreases t - k,
        {
            let x = values[k];
            assert(values@[k as int] < 36);
            let c = if x < 26 {
                x + 65
            } else {
                x - 26 + 48
            };
            bytes.push(c);
            k = k + 1;
            assert(bytes@ =~= lead + Seq::new(k as nat, |j: int| byte_of_symbol(values@[j])));
        }
        let ghost expected = if elided {
            net_prefix@ + body
        } else {
            body
        };
        proof {
            assert(forall|j: int| 0 <= j < t ==> symbol_at(b, j) < 36);
            assert forall|j: int| 0 <= j < t implies is_ident_char(#[trigger] body[j]) by {
                assert(symbol_at(b, j) < 36);
            }
            if elided {
                assert(all_ident_chars(net_prefix@));
            }
            assert forall|j: int| 0 <= j < expected.len() implies is_ident_char(#[trigger] expected[j]) by {
                if elided && j >= net_prefix@.len() {
                    assert(expected[j] == body[j - net_prefix@.len()]);
                }
            }
            assert(is_ascii_chars(expected));
            lemma_ascii_chars_bytes(expected);
            assert(bytes@ =~= ascii_bytes(expected));
            lemma_ascii_utf8(bytes@);
        }
        let callsign = match string_from_utf8(bytes) {
            Some(s) => s,
            None => {
                assert(false);
                return Err(Error::InvalidStationIdentifier);
            },
        };
        let ssid = if elided {
            term - 46
        } else {
            term - 36
        };
        let station = Station { callsign, ssid };
        let consumed = if r == 3 {
            group + 3
        } else {
            group + r + 1
        };
        assert(consumed == symbol_end(t as int) + 1);
        let rest = vstd::slice::slice_subrange(encoded, consumed, len);
        Ok((station, rest))
    }
}

} // verus!
