//! Bit-exact encoding and decoding of protocol commands.
//!
//! A command starts with a command byte: the low 5 bits hold the variant tag
//! (0-16), the top 3 bits hold `epoch_mod8` in the variants that carry it at
//! the front (zero otherwise). The rest of the layout depends on the variant.

use vstd::prelude::*;
use vstd::utf8::*;

use crate::ax25::Ax25Error;
use crate::station::Station;
use crate::text::{push_bytes, string_from_utf8};
use crate::global::{
    BucketContentRequest, BucketContentResponse, Command, CommandView, ContiguousRange,
    EpochRequest, EpochResponse, FrameDefinition, FrameDefinitionView, FrameRequest,
    FrameRequestView, FrameView, FrameWithMetadata, InsertFrame, PingRequest, PingResponse,
    QuickEpochResponse, Range, StationDataRequest, StationDataResponse, StationHeard,
    StationHeardView, StationSparse, StationSparseView, StationSummary, StationSummaryView, Status,
    StatusView,
};
use crate::station::{
    StationView, is_valid_station, lemma_parse_station_bytes, lemma_parse_station_len,
    parse_station, station_bytes,
};

verus! {

broadcast use vstd::seq_lib::group_seq_properties;

// ---------------------------------------------------------------------------
// Encoding, as byte sequences
/// Big-endian bytes of a 16-bit value.
pub open spec fn be16(x: u16) -> Seq<u8> {
    seq![(x >> 8u16) as u8, x as u8]
}

/// Big-endian bytes of a 32-bit value.
pub open spec fn be32(x: u32) -> Seq<u8> {
    seq![(x >> 24u32) as u8, (x >> 16u32) as u8, (x >> 8u32) as u8, x as u8]
}

/// The 16-bit value of two big-endian bytes.
pub open spec fn read_be16(hi: u8, lo: u8) -> u16 {
    ((hi as u16) << 8u16) | (lo as u16)
}

/// The 32-bit value of the first four bytes of `b`, big-endian.
pub open spec fn read_be32(b: Seq<u8>) -> u32 {
    ((b[0] as u32) << 24u32) | ((b[1] as u32) << 16u32) | ((b[2] as u32) << 8u32) | (b[3] as u32)
}

/// A 3-bit epoch in the top bits and a 13-bit index below it.
pub open spec fn index_word(epoch_mod8: u8, index: u16) -> u16 {
    index | ((epoch_mod8 as u16) << 13u16)
}

/// A command byte: tag in the low 5 bits, `epoch_mod8` in the top 3.
pub open spec fn cmd_byte(tag: u8, epoch_mod8: u8) -> u8 {
    tag | (epoch_mod8 << 5u8)
}

/// A page byte: `high` in the top nibble, `low` below it.
pub open spec fn nibbles(high: u8, low: u8) -> u8 {
    low | (high << 4u8)
}

/// `ContiguousRange` encoding: `top` with the top bit set when `bottom` is 0,
/// else `top` then `bottom`.
pub open spec fn range_bytes(top: u16, bottom: u16) -> Seq<u8> {
    if bottom == 0 {
        be16(top | 0x8000u16)
    } else {
        be16(top) + be16(bottom)
    }
}

/// Third byte of a frame: start flag, end flag, then the application's low 4 bits.
pub open spec fn frame_flags(f: FrameView) -> u8 {
    let a = f.application & 0x0fu8;
    let a = if f.start_of_message {
        a | 0x80u8
    } else {
        a
    };
    if f.end_of_message {
        a | 0x40u8
    } else {
        a
    }
}

/// `FrameWithMetadata` encoding.
pub open spec fn frame_bytes(f: FrameView) -> Seq<u8> {
    be16(index_word(f.epoch_mod8, f.index)) + seq![frame_flags(f)] + f.data
}

/// `FrameRequest` encoding.
pub open spec fn frame_request_bytes(r: FrameRequestView, p: Seq<char>) -> Seq<u8> {
    station_bytes(r.target, p) + station_bytes(r.inserter, p) + be16(
        index_word(r.epoch_mod8, r.index),
    )
}

/// `StationSparse` encoding.
pub open spec fn sparse_bytes(s: StationSparseView, p: Seq<char>) -> Seq<u8> {
    station_bytes(s.station, p) + range_bytes(s.top, s.bottom)
}

/// `StationSummary` encoding.
pub open spec fn summary_bytes(s: StationSummaryView, p: Seq<char>) -> Seq<u8> {
    station_bytes(s.station, p) + range_bytes(s.top, s.bottom) + be32(s.epoch_crc)
}

/// The bit for station `i` in the mutual bitmap of a `Range`.
pub open spec fn mutual_bit(st: Seq<StationHeardView>, i: int) -> u8 {
    if 0 <= i < st.len() && st[i].is_mutual {
        1u8 << ((7 - i % 8) as u8)
    } else {
        0
    }
}

/// The first `k` bits of byte `m` of the mutual bitmap.
pub open spec fn mutual_bits(st: Seq<StationHeardView>, m: int, k: int) -> u8
    decreases k,
{
    if k <= 0 {
        0
    } else {
        mutual_bits(st, m, k - 1) | mutual_bit(st, 8 * m + k - 1)
    }
}

/// The mutual bitmap: one bit per station, first station in bit 7 of the
/// first byte, `ceil(n / 8)` bytes.
pub open spec fn mutual_bitmap(st: Seq<StationHeardView>) -> Seq<u8> {
    Seq::new((st.len() + 7) / 8, |m: int| mutual_bits(st, m, 8))
}

/// The bytes of a command, with stations encoded against network prefix `p`.
pub open spec fn command_bytes(c: CommandView, p: Seq<char>) -> Seq<u8> {
    match c {
        CommandView::Status(s) => seq![cmd_byte(0, s.epoch_now_mod8)] + s.crcs.map_values(
            |x: u32| be32(x),
        ).flatten() + s.recently_added.map_values(|x: StationSparseView| sparse_bytes(x, p)).flatten(),
        CommandView::Range { final_page, page, stations } => seq![
            1u8,
            nibbles(final_page, page),
            (stations.len() % 256) as u8,
        ] + stations.map_values(|x: StationHeardView| station_bytes(x.station, p)).flatten()
            + mutual_bitmap(stations),
        CommandView::InsertFrame(f) => seq![2u8] + frame_bytes(f),
        CommandView::RepeatFrame(d) => seq![3u8] + station_bytes(d.station, p)
            + frame_bytes(d.frame),
        CommandView::QuickSyncFrameRequest(r) => seq![4u8] + frame_request_bytes(r, p),
        CommandView::QuickSyncFrameResponse(d) => seq![5u8] + station_bytes(d.station, p)
            + frame_bytes(d.frame),
        CommandView::BackfillFrameRequest(r) => seq![6u8] + frame_request_bytes(r, p),
        CommandView::BackfillFrameResponse(d) => seq![7u8] + station_bytes(d.station, p)
            + frame_bytes(d.frame),
        CommandView::EpochRequest { target, epoch_mod8 } => seq![cmd_byte(8, epoch_mod8)]
            + station_bytes(target, p),
        CommandView::QuickEpochResponse { epoch_mod8, stations } => seq![cmd_byte(9, epoch_mod8)]
            + stations.map_values(|x: StationSummaryView| summary_bytes(x, p)).flatten(),
        CommandView::EpochResponse { epoch_mod8, checksums } => seq![cmd_byte(10, epoch_mod8)]
            + checksums.map_values(|x: u32| be32(x)).flatten(),
        CommandView::BucketContentRequest { target, epoch_mod8, bucket, page } => seq![
            cmd_byte(11, epoch_mod8),
        ] + station_bytes(target, p) + seq![nibbles(bucket, page)],
        CommandView::BucketContentResponse { epoch_mod8, final_page, page, stations } => seq![
            cmd_byte(12, epoch_mod8),
            nibbles(final_page, page),
        ] + stations.map_values(|x: StationSummaryView| summary_bytes(x, p)).flatten(),
        CommandView::StationDataRequest { target, station, epoch_mod8, from_index } => seq![
            13u8,
        ] + station_bytes(target, p) + station_bytes(station, p) + be16(
            index_word(epoch_mod8, from_index),
        ),
        CommandView::StationDataResponse { station, epoch_mod8, end_of_data, ranges } => seq![
            14u8,
        ] + station_bytes(station, p) + seq![
            if end_of_data {
                epoch_mod8 | 0x80u8
            } else {
                epoch_mod8
            },
        ] + ranges.map_values(|r: ContiguousRange| range_bytes(r.top, r.bottom)).flatten(),
        CommandView::PingRequest { target } => seq![15u8] + station_bytes(target, p),
        CommandView::PingResponse { target, diagnostic } => seq![16u8] + station_bytes(
            target,
            p,
        ) + encode_utf8(diagnostic),
    }
}

// ---------------------------------------------------------------------------
// Decoding, as a grammar over byte sequences
/// A big-endian CRC at the start of `b`, and what follows it.
pub open spec fn take_crc_spec(b: Seq<u8>) -> Result<(u32, Seq<u8>), Ax25Error> {
    if b.len() < 4 {
        Err(Ax25Error::Truncated)
    } else {
        Ok((read_be32(b), b.skip(4)))
    }
}

/// A `ContiguousRange` at the start of `b` (top, bottom), and what follows it.
pub open spec fn take_range_spec(b: Seq<u8>) -> Result<(u16, u16, Seq<u8>), Ax25Error> {
    if b.len() == 0 {
        Err(Ax25Error::Truncated)
    } else if b[0] & 0x80u8 != 0 {
        if b.len() < 2 {
            Err(Ax25Error::Truncated)
        } else {
            Ok((read_be16(b[0] & 0x7fu8, b[1]), 0, b.skip(2)))
        }
    } else {
        if b.len() < 4 {
            Err(Ax25Error::Truncated)
        } else {
            Ok((read_be16(b[0], b[1]), read_be16(b[2], b[3]), b.skip(4)))
        }
    }
}

/// A station at the start of `b`, and what follows it.
pub open spec fn take_station_spec(b: Seq<u8>, p: Seq<char>) -> Result<
    (StationView, Seq<u8>),
    Ax25Error,
> {
    match parse_station(b, p) {
        Some((s, n)) => Ok((s, b.skip(n))),
        None => Err(Ax25Error::InvalidStation),
    }
}

/// A `StationSparse` at the start of `b`, and what follows it. Its range must
/// have `bottom` 0 or at most `top`.
pub open spec fn take_sparse_spec(b: Seq<u8>, p: Seq<char>) -> Result<
    (StationSparseView, Seq<u8>),
    Ax25Error,
> {
    match take_station_spec(b, p) {
        Err(e) => Err(e),
        Ok((station, r)) => match take_range_spec(r) {
            Err(e) => Err(e),
            Ok((top, bottom, r)) => if bottom != 0 && bottom > top {
                Err(Ax25Error::InvalidCommand)
            } else {
                Ok((StationSparseView { station, top, bottom }, r))
            },
        },
    }
}

/// A `StationSummary` at the start of `b`, and what follows it. Its range must
/// have `bottom` 0 or at most `top`.
pub open spec fn take_summary_spec(b: Seq<u8>, p: Seq<char>) -> Result<
    (StationSummaryView, Seq<u8>),
    Ax25Error,
> {
    match take_station_spec(b, p) {
        Err(e) => Err(e),
        Ok((station, r)) => match take_range_spec(r) {
            Err(e) => Err(e),
            Ok((top, bottom, r)) => if bottom != 0 && bottom > top {
                Err(Ax25Error::InvalidCommand)
            } else {
                match take_crc_spec(r) {
                Err(e) => Err(e),
                    Ok((epoch_crc, r)) => Ok(
                        (StationSummaryView { station, top, bottom, epoch_crc }, r),
                    ),
                }
            },
        },
    }
}

/// What a station parse leaves is shorter than what it was given.
pub proof fn lemma_take_station_shorter(b: Seq<u8>, p: Seq<char>)
    ensures
        take_station_spec(b, p) matches Ok((s, r)) ==> r.len() < b.len() && is_valid_station(s),
{
    lemma_parse_station_len(b, p);
}

/// `StationSummary` entries until `b` ends.
pub open spec fn parse_summaries(b: Seq<u8>, p: Seq<char>) -> Result<
    Seq<StationSummaryView>,
    Ax25Error,
>
    decreases b.len(),
{
    if b.len() == 0 {
        Ok(Seq::empty())
    } else {
        match take_summary_spec(b, p) {
            Err(e) => Err(e),
            Ok((s, r)) => {
                proof {
                    lemma_take_station_shorter(b, p);
                }
                match parse_summaries(r, p) {
                    Err(e) => Err(e),
                    Ok(rest) => Ok(seq![s] + rest),
                }
            },
        }
    }
}

/// At most `k` `StationSparse` entries, stopping early where `b` ends.
pub open spec fn parse_sparses(b: Seq<u8>, p: Seq<char>, k: nat) -> Result<
    Seq<StationSparseView>,
    Ax25Error,
>
    decreases k,
{
    if k == 0 || b.len() == 0 {
        Ok(Seq::empty())
    } else {
        match take_sparse_spec(b, p) {
            Err(e) => Err(e),
            Ok((s, r)) => match parse_sparses(r, p, (k - 1) as nat) {
                Err(e) => Err(e),
                Ok(rest) => Ok(seq![s] + rest),
            },
        }
    }
}

/// `ContiguousRange` entries until `b` ends.
pub open spec fn parse_ranges(b: Seq<u8>) -> Result<Seq<ContiguousRange>, Ax25Error>
    decreases b.len(),
{
    if b.len() == 0 {
        Ok(Seq::empty())
    } else {
        match take_range_spec(b) {
            Err(e) => Err(e),
            Ok((top, bottom, r)) => match parse_ranges(r) {
                Err(e) => Err(e),
                Ok(rest) => Ok(seq![ContiguousRange { top, bottom }] + rest),
            },
        }
    }
}

/// Exactly `n` stations, and what follows them.
pub open spec fn parse_stations(b: Seq<u8>, p: Seq<char>, n: nat) -> Result<
    (Seq<StationView>, Seq<u8>),
    Ax25Error,
>
    decreases n,
{
    if n == 0 {
        Ok((Seq::empty(), b))
    } else {
        match take_station_spec(b, p) {
            Err(e) => Err(e),
            Ok((s, r)) => match parse_stations(r, p, (n - 1) as nat) {
                Err(e) => Err(e),
                Ok((rest, r)) => Ok((seq![s] + rest, r)),
            },
        }
    }
}

/// Exactly `n` big-endian CRCs, and what follows them.
pub open spec fn parse_crcs(b: Seq<u8>, n: nat) -> Result<(Seq<u32>, Seq<u8>), Ax25Error>
    decreases n,
{
    if n == 0 {
        Ok((Seq::empty(), b))
    } else {
        match take_crc_spec(b) {
            Err(e) => Err(e),
            Ok((c, r)) => match parse_crcs(r, (n - 1) as nat) {
                Err(e) => Err(e),
                Ok((rest, r)) => Ok((seq![c] + rest, r)),
            },
        }
    }
}

/// Whether bit `7 - i % 8` of byte `i / 8` of the bitmap `m` is set.
pub open spec fn mutual_flag(m: Seq<u8>, i: int) -> bool {
    m[i / 8] & (1u8 << ((7 - i % 8) as u8)) != 0
}

/// `FrameWithMetadata`, which takes the rest of `b`.
pub open spec fn parse_frame(b: Seq<u8>) -> Result<FrameView, Ax25Error> {
    if b.len() < 3 {
        Err(Ax25Error::Truncated)
    } else {
        Ok(
            FrameView {
                epoch_mod8: b[0] >> 5u8,
                index: read_be16(b[0], b[1]) & 0x1fffu16,
                start_of_message: b[2] & 0x80u8 != 0,
                end_of_message: b[2] & 0x40u8 != 0,
                application: b[2] & 0x0fu8,
                data: b.skip(3),
            },
        )
    }
}

/// A station, then a `FrameWithMetadata` that takes the rest of `b`.
pub open spec fn parse_frame_definition(b: Seq<u8>, p: Seq<char>) -> Result<
    FrameDefinitionView,
    Ax25Error,
> {
    match take_station_spec(b, p) {
        Err(e) => Err(e),
        Ok((station, r)) => match parse_frame(r) {
            Err(e) => Err(e),
            Ok(frame) => Ok(FrameDefinitionView { station, frame }),
        },
    }
}

/// Two stations then a 16-bit epoch and index word: the fields of a
/// `FrameRequest` or a `StationDataRequest`.
pub open spec fn parse_frame_request(b: Seq<u8>, p: Seq<char>) -> Result<
    FrameRequestView,
    Ax25Error,
> {
    match take_station_spec(b, p) {
        Err(e) => Err(e),
        Ok((target, r)) => match take_station_spec(r, p) {
            Err(e) => Err(e),
            Ok((inserter, r)) => if r.len() < 2 {
                Err(Ax25Error::Truncated)
            } else {
                Ok(
                    FrameRequestView {
                        target,
                        inserter,
                        epoch_mod8: r[0] >> 5u8,
                        index: read_be16(r[0], r[1]) & 0x1fffu16,
                    },
                )
            },
        },
    }
}

/// The `Range` payload after its command byte. A page after the final page
/// is rejected.
pub open spec fn parse_range_payload(b: Seq<u8>, p: Seq<char>) -> Result<CommandView, Ax25Error> {
    if b.len() < 2 {
        Err(Ax25Error::Truncated)
    } else if b[0] & 0x0fu8 > b[0] >> 4u8 {
        Err(Ax25Error::InvalidCommand)
    } else {
        let n = b[1] as nat;
        match parse_stations(b.skip(2), p, n) {
            Err(e) => Err(e),
            Ok((stations, m)) => if m.len() < (n + 7) / 8 {
                Err(Ax25Error::Truncated)
            } else {
                Ok(
                    CommandView::Range {
                        final_page: b[0] >> 4u8,
                        page: b[0] & 0x0fu8,
                        stations: Seq::new(
                            n,
                            |i: int| StationHeardView { station: stations[i], is_mutual: mutual_flag(m, i) },
                        ),
                    },
                )
            },
        }
    }
}

/// The command in `b`, with stations read against network prefix `p`.
pub open spec fn parse_command(b: Seq<u8>, p: Seq<char>) -> Result<CommandView, Ax25Error> {
    if b.len() == 0 {
        Err(Ax25Error::InvalidCommand)
    } else {
        let tag = b[0] & 0x1fu8;
        let e = b[0] >> 5u8;
        let r = b.skip(1);
        if tag == 0 {
            match parse_crcs(r, 6) {
                Err(err) => Err(err),
                Ok((crcs, r)) => match parse_sparses(r, p, 4) {
                    Err(err) => Err(err),
                    Ok(recently_added) => Ok(
                        CommandView::Status(StatusView { epoch_now_mod8: e, crcs, recently_added }),
                    ),
                },
            }
        } else if tag == 1 {
            parse_range_payload(r, p)
        } else if tag == 2 {
            match parse_frame(r) {
                Err(err) => Err(err),
                Ok(f) => Ok(CommandView::InsertFrame(f)),
            }
        } else if tag == 3 || tag == 5 || tag == 7 {
            match parse_frame_definition(r, p) {
                Err(err) => Err(err),
                Ok(d) => Ok(
                    if tag == 3 {
                        CommandView::RepeatFrame(d)
                    } else if tag == 5 {
                        CommandView::QuickSyncFrameResponse(d)
                    } else {
                        CommandView::BackfillFrameResponse(d)
                    },
                ),
            }
        } else if tag == 4 || tag == 6 {
            match parse_frame_request(r, p) {
                Err(err) => Err(err),
                Ok(q) => Ok(
                    if tag == 4 {
                        CommandView::QuickSyncFrameRequest(q)
                    } else {
                        CommandView::BackfillFrameRequest(q)
                    },
                ),
            }
        } else if tag == 8 {
            match take_station_spec(r, p) {
                Err(err) => Err(err),
                Ok((target, _)) => Ok(CommandView::EpochRequest { target, epoch_mod8: e }),
            }
        } else if tag == 9 {
            match parse_summaries(r, p) {
                Err(err) => Err(err),
                Ok(stations) => Ok(CommandView::QuickEpochResponse { epoch_mod8: e, stations }),
            }
        } else if tag == 10 {
            match parse_crcs(r, 16) {
                Err(err) => Err(err),
                Ok((checksums, _)) => Ok(CommandView::EpochResponse { epoch_mod8: e, checksums }),
            }
        } else if tag == 11 {
            match take_station_spec(r, p) {
                Err(err) => Err(err),
                Ok((target, r)) => if r.len() < 1 {
                    Err(Ax25Error::Truncated)
                } else {
                    Ok(
                        CommandView::BucketContentRequest {
                            target,
                            epoch_mod8: e,
                            bucket: r[0] >> 4u8,
                            page: r[0] & 0x0fu8,
                        },
                    )
                },
            }
        } else if tag == 12 {
            if r.len() < 1 {
                Err(Ax25Error::Truncated)
            } else if r[0] & 0x0fu8 > r[0] >> 4u8 {
                Err(Ax25Error::InvalidCommand)
            } else {
                match parse_summaries(r.skip(1), p) {
                    Err(err) => Err(err),
                    Ok(stations) => Ok(
                        CommandView::BucketContentResponse {
                            epoch_mod8: e,
                            final_page: r[0] >> 4u8,
                            page: r[0] & 0x0fu8,
                            stations,
                        },
                    ),
                }
            }
        } else if tag == 13 {
            match parse_frame_request(r, p) {
                Err(err) => Err(err),
                Ok(q) => Ok(
                    CommandView::StationDataRequest {
                        target: q.target,
                        station: q.inserter,
                        epoch_mod8: q.epoch_mod8,
                        from_index: q.index,
                    },
                ),
            }
        } else if tag == 14 {
            match take_station_spec(r, p) {
                Err(err) => Err(err),
                Ok((station, r)) => if r.len() == 0 {
                    Err(Ax25Error::Truncated)
                } else {
                    match parse_ranges(r.skip(1)) {
                        Err(err) => Err(err),
                        Ok(ranges) => Ok(
                            CommandView::StationDataResponse {
                                station,
                                epoch_mod8: r[0] & 0x07u8,
                                end_of_data: r[0] & 0x80u8 != 0,
                                ranges,
                            },
                        ),
                    }
                },
            }
        } else if tag == 15 {
            match take_station_spec(r, p) {
                Err(err) => Err(err),
                Ok((target, _)) => Ok(CommandView::PingRequest { target }),
            }
        } else if tag == 16 {
            match take_station_spec(r, p) {
                Err(err) => Err(err),
                Ok((target, r)) => if valid_utf8(r) {
                    Ok(CommandView::PingResponse { target, diagnostic: decode_utf8(r) })
                } else {
                    Err(Ax25Error::InvalidUtf8)
                },
            }
        } else {
            Err(Ax25Error::InvalidCommand)
        }
    }
}

// ---------------------------------------------------------------------------
// Encoders
/// The variant tag of a command.
pub open spec fn command_tag(c: CommandView) -> u8 {
    match c {
        CommandView::Status(_) => 0,
        CommandView::Range { .. } => 1,
        CommandView::InsertFrame(_) => 2,
        CommandView::RepeatFrame(_) => 3,
        CommandView::QuickSyncFrameRequest(_) => 4,
        CommandView::QuickSyncFrameResponse(_) => 5,
        CommandView::BackfillFrameRequest(_) => 6,
        CommandView::BackfillFrameResponse(_) => 7,
        CommandView::EpochRequest { .. } => 8,
        CommandView::QuickEpochResponse { .. } => 9,
        CommandView::EpochResponse { .. } => 10,
        CommandView::BucketContentRequest { .. } => 11,
        CommandView::BucketContentResponse { .. } => 12,
        CommandView::StationDataRequest { .. } => 13,
        CommandView::StationDataResponse { .. } => 14,
        CommandView::PingRequest { .. } => 15,
        CommandView::PingResponse { .. } => 16,
    }
}

/// Flattening one more mapped element appends its bytes.
proof fn lemma_flatten_step<A>(s: Seq<A>, f: spec_fn(A) -> Seq<u8>, i: int)
    requires
        0 <= i < s.len(),
    ensures
        s.take(i + 1).map_values(f).flatten() == s.take(i).map_values(f).flatten() + f(s[i]),
{
    assert(s.take(i + 1).map_values(f) =~= s.take(i).map_values(f).push(f(s[i])));
    s.take(i).map_values(f).lemma_flatten_push(f(s[i]));
}

/// Appends a 16-bit value, big-endian.
fn push_be16(out: &mut Vec<u8>, x: u16)
    ensures
        final(out)@ == old(out)@ + be16(x),
{
    out.push((x >> 8) as u8);
    out.push(x as u8);
    assert(final(out)@ =~= old(out)@ + be16(x));
}

/// Appends a 32-bit value, big-endian.
fn push_be32(out: &mut Vec<u8>, x: u32)
    ensures
        final(out)@ == old(out)@ + be32(x),
{
    out.push((x >> 24) as u8);
    out.push((x >> 16) as u8);
    out.push((x >> 8) as u8);
    out.push(x as u8);
    assert(final(out)@ =~= old(out)@ + be32(x));
}

/// Appends a run of 32-bit checksums, each big-endian.
fn push_crcs(out: &mut Vec<u8>, crcs: &[u32])
    ensures
        final(out)@ == old(out)@ + crcs@.map_values(|x: u32| be32(x)).flatten(),
{
    let n = crcs.len();
    let mut i: usize = 0;
    assert(crcs@.take(0).map_values(|x: u32| be32(x)).flatten() =~= Seq::<u8>::empty());
    while i < n
        invariant
            n == crcs@.len(),
            0 <= i <= n,
            out@ == old(out)@ + crcs@.take(i as int).map_values(|x: u32| be32(x)).flatten(),
        decreases n - i,
    {
        proof {
            lemma_flatten_step(crcs@, |x: u32| be32(x), i as int);
        }
        push_be32(out, crcs[i]);
        i += 1;
    }
    assert(crcs@.take(n as int) =~= crcs@);
}

/// Appends the compact form of a station.
fn push_station(out: &mut Vec<u8>, s: &Station, net_prefix: &str)
    ensures
        final(out)@ == old(out)@ + station_bytes(s@, net_prefix@),
{
    let e = s.encoded(net_prefix);
    push_bytes(out, e.as_slice());
}

/// Appends a `ContiguousRange`: `top` with its top bit set when `bottom` is
/// 0, else `top` then `bottom`, each big-endian.
pub fn encode_contiguous_range(top: u16, bottom: u16, out: &mut Vec<u8>)
    ensures
        final(out)@ == old(out)@ + range_bytes(top, bottom),
{
    if bottom == 0 {
        push_be16(out, top | 0x8000);
    } else {
        push_be16(out, top);
        push_be16(out, bottom);
        assert(final(out)@ =~= old(out)@ + range_bytes(top, bottom));
    }
}

/// Appends a `FrameWithMetadata`: the epoch and index word, the flags byte,
/// then the data.
pub fn encode_frame_with_metadata(f: &FrameWithMetadata, out: &mut Vec<u8>)
    ensures
        final(out)@ == old(out)@ + frame_bytes(f@),
{
    push_be16(out, f.index | ((f.epoch_mod8 as u16) << 13));
    let mut flags = f.application & 0x0f;
    if f.start_of_message {
        flags = flags | 0x80;
    }
    if f.end_of_message {
        flags = flags | 0x40;
    }
    out.push(flags);
    push_bytes(out, f.data.as_slice());
    assert(final(out)@ =~= old(out)@ + frame_bytes(f@));
}

/// Appends a `FrameRequest`: target, inserter, then the epoch and index word.
pub fn encode_frame_request(fr: &FrameRequest, net_prefix: &str, out: &mut Vec<u8>)
    ensures
        final(out)@ == old(out)@ + frame_request_bytes(fr@, net_prefix@),
{
    push_station(out, &fr.target, net_prefix);
    push_station(out, &fr.inserter, net_prefix);
    push_be16(out, fr.index | ((fr.epoch_mod8 as u16) << 13));
    assert(final(out)@ =~= old(out)@ + frame_request_bytes(fr@, net_prefix@));
}

/// Appends a `StationSummary`: station, range, then its epoch CRC.
pub fn encode_station_summary(ss: &StationSummary, net_prefix: &str, out: &mut Vec<u8>)
    ensures
        final(out)@ == old(out)@ + summary_bytes(ss@, net_prefix@),
{
    push_station(out, &ss.station, net_prefix);
    encode_contiguous_range(ss.top, ss.bottom, out);
    push_be32(out, ss.epoch_crc);
    assert(final(out)@ =~= old(out)@ + summary_bytes(ss@, net_prefix@));
}

/// Appends a run of `StationSummary` entries.
fn push_summaries(out: &mut Vec<u8>, stations: &Vec<StationSummary>, net_prefix: &str)
    ensures
        final(out)@ == old(out)@ + stations@.map_values(|s: StationSummary| s@).map_values(
            |x: StationSummaryView| summary_bytes(x, net_prefix@),
        ).flatten(),
{
    let ghost sv = stations@.map_values(|s: StationSummary| s@);
    let ghost f = |x: StationSummaryView| summary_bytes(x, net_prefix@);
    let n = stations.len();
    let mut i: usize = 0;
    assert(sv.take(0).map_values(f).flatten() =~= Seq::<u8>::empty());
    while i < n
        invariant
            n == stations@.len() == sv.len(),
            sv == stations@.map_values(|s: StationSummary| s@),
            f == (|x: StationSummaryView| summary_bytes(x, net_prefix@)),
            0 <= i <= n,
            out@ == old(out)@ + sv.take(i as int).map_values(f).flatten(),
        decreases n - i,
    {
        proof {
            lemma_flatten_step(sv, f, i as int);
        }
        encode_station_summary(&stations[i], net_prefix, out);
        i += 1;
    }
    assert(sv.take(n as int) =~= sv);
}

/// Appends a run of `StationSparse` entries.
fn push_sparses(out: &mut Vec<u8>, entries: &Vec<StationSparse>, net_prefix: &str)
    ensures
        final(out)@ == old(out)@ + entries@.map_values(|s: StationSparse| s@).map_values(
            |x: StationSparseView| sparse_bytes(x, net_prefix@),
        ).flatten(),
{
    let ghost sv = entries@.map_values(|s: StationSparse| s@);
    let ghost f = |x: StationSparseView| sparse_bytes(x, net_prefix@);
    let n = entries.len();
    let mut i: usize = 0;
    assert(sv.take(0).map_values(f).flatten() =~= Seq::<u8>::empty());
    while i < n
        invariant
            n == entries@.len() == sv.len(),
            sv == entries@.map_values(|s: StationSparse| s@),
            f == (|x: StationSparseView| sparse_bytes(x, net_prefix@)),
            0 <= i <= n,
            out@ == old(out)@ + sv.take(i as int).map_values(f).flatten(),
        decreases n - i,
    {
        proof {
            lemma_flatten_step(sv, f, i as int);
        }
        let ghost before = out@;
        push_station(out, &entries[i].station, net_prefix);
        encode_contiguous_range(entries[i].top, entries[i].bottom, out);
        assert(out@ =~= before + sparse_bytes(sv[i as int], net_prefix@));
        i += 1;
    }
    assert(sv.take(n as int) =~= sv);
}

/// Appends a run of `ContiguousRange` entries.
fn push_ranges(out: &mut Vec<u8>, ranges: &Vec<ContiguousRange>)
    ensures
        final(out)@ == old(out)@ + ranges@.map_values(
            |r: ContiguousRange| range_bytes(r.top, r.bottom),
        ).flatten(),
{
    let ghost f = |r: ContiguousRange| range_bytes(r.top, r.bottom);
    let n = ranges.len();
    let mut i: usize = 0;
    assert(ranges@.take(0).map_values(f).flatten() =~= Seq::<u8>::empty());
    while i < n
        invariant
            n == ranges@.len(),
            f == (|r: ContiguousRange| range_bytes(r.top, r.bottom)),
            0 <= i <= n,
            out@ == old(out)@ + ranges@.take(i as int).map_values(f).flatten(),
        decreases n - i,
    {
        proof {
            lemma_flatten_step(ranges@, f, i as int);
        }
        encode_contiguous_range(ranges[i].top, ranges[i].bottom, out);
        i += 1;
    }
    assert(ranges@.take(n as int) =~= ranges@);
}

/// Bit fact: or-ing in zero changes nothing.
proof fn lemma_or_zero(x: u8)
    by (bit_vector)
    ensures
        x | 0u8 == x,
{
}

/// Bits of a bitmap byte past the last station are zero.
proof fn lemma_mutual_bits_past_end(st: Seq<StationHeardView>, m: int, k: int, j: int)
    requires
        0 <= k <= j,
        8 * m + k >= st.len(),
    ensures
        mutual_bits(st, m, j) == mutual_bits(st, m, k),
    decreases j - k,
{
    if j > k {
        lemma_mutual_bits_past_end(st, m, k, j - 1);
        lemma_or_zero(mutual_bits(st, m, j - 1));
    }
}

/// Appends the stations of a `Range` and then the mutual bitmap.
fn push_heard(out: &mut Vec<u8>, stations: &Vec<StationHeard>, net_prefix: &str)
    ensures
        ({
            let sv = stations@.map_values(|s: StationHeard| s@);
            final(out)@ == old(out)@ + sv.map_values(
                |x: StationHeardView| station_bytes(x.station, net_prefix@),
            ).flatten() + mutual_bitmap(sv)
        }),
{
    let ghost sv = stations@.map_values(|s: StationHeard| s@);
    let ghost f = |x: StationHeardView| station_bytes(x.station, net_prefix@);
    let n = stations.len();
    let mlen = n / 8 + if n % 8 > 0 {
        1usize
    } else {
        0usize
    };
    assert(mlen == (n + 7) / 8);
    let mut mutual: Vec<u8> = Vec::new();
    let mut j: usize = 0;
    while j < mlen
        invariant
            0 <= j <= mlen,
            mutual@.len() == j,
            forall|m: int| 0 <= m < j ==> #[trigger] mutual@[m] == 0,
        decreases mlen - j,
    {
        mutual.push(0);
        j += 1;
    }
    let mut i: usize = 0;
    assert(sv.take(0).map_values(f).flatten() =~= Seq::<u8>::empty());
    while i < n
        invariant
            n == stations@.len() == sv.len(),
            sv == stations@.map_values(|s: StationHeard| s@),
            f == (|x: StationHeardView| station_bytes(x.station, net_prefix@)),
            mlen == (n + 7) / 8,
            mutual@.len() == mlen,
            0 <= i <= n,
            out@ == old(out)@ + sv.take(i as int).map_values(f).flatten(),
            forall|m: int|
                0 <= m < mlen ==> #[trigger] mutual@[m] == mutual_bits(
                    sv,
                    m,
                    if i - 8 * m < 0 {
                        0
                    } else if i - 8 * m > 8 {
                        8
                    } else {
                        i - 8 * m
                    },
                ),
        decreases n - i,
    {
        proof {
            lemma_flatten_step(sv, f, i as int);
        }
        push_station(out, &stations[i].station, net_prefix);
        let m = i / 8;
        let old_byte = mutual[m];
        let ghost before = mutual@;
        if stations[i].is_mutual {
            mutual.set(m, old_byte | (1u8 << ((7 - i % 8) as u8)));
        }
        proof {
            lemma_or_zero(old_byte);
            assert forall|q: int| 0 <= q < mlen implies #[trigger] mutual@[q] == mutual_bits(
                sv,
                q,
                if i + 1 - 8 * q < 0 {
                    0
                } else if i + 1 - 8 * q > 8 {
                    8
                } else {
                    i + 1 - 8 * q
                },
            ) by {
                if q == m {
                    assert(mutual_bits(sv, q, (i % 8) as int + 1) == mutual_bits(sv, q, (i % 8) as int)
                        | mutual_bit(sv, i as int));
                } else {
                    assert(mutual@[q] == before[q]);
                }
            }
        }
        i += 1;
    }
    assert(sv.take(n as int) =~= sv);
    proof {
        assert forall|m: int| 0 <= m < mlen implies #[trigger] mutual@[m] == mutual_bits(sv, m, 8) by {
            if n - 8 * m < 8 {
                lemma_mutual_bits_past_end(sv, m, n - 8 * m, 8);
            }
        }
        assert(mutual@ =~= mutual_bitmap(sv));
    }
    push_bytes(out, mutual.as_slice());
}

/// The variant tag (0-16) of a command.
pub fn command_byte(c: &Command) -> (r: u8)
    ensures
        r == command_tag(c@),
{
    match c {
        Command::Status(_) => 0,
        Command::Range(_) => 1,
        Command::InsertFrame(_) => 2,
        Command::RepeatFrame(_) => 3,
        Command::QuickSyncFrameRequest(_) => 4,
        Command::QuickSyncFrameResponse(_) => 5,
        Command::BackfillFrameRequest(_) => 6,
        Command::BackfillFrameResponse(_) => 7,
        Command::EpochRequest(_) => 8,
        Command::QuickEpochResponse(_) => 9,
        Command::EpochResponse(_) => 10,
        Command::BucketContentRequest(_) => 11,
        Command::BucketContentResponse(_) => 12,
        Command::StationDataRequest(_) => 13,
        Command::StationDataResponse(_) => 14,
        Command::PingRequest(_) => 15,
        Command::PingResponse(_) => 16,
    }
}

/// Encodes a command, with stations in compact form against `net_prefix`.
pub fn encode_command(c: &Command, net_prefix: &str) -> (r: Vec<u8>)
    ensures
        r@ == command_bytes(c@, net_prefix@),
{
    let mut out: Vec<u8> = Vec::new();
    let tag = command_byte(c);
    match c {
        Command::Status(status) => {
            out.push(tag | (status.epoch_now_mod8 << 5));
            let crcs: [u32; 6] = [
                status.epoch_4_ago_crc,
                status.epoch_3_ago_crc,
                status.epoch_2_ago_crc,
                status.epoch_1_ago_crc,
                status.epoch_now_crc,
                status.epoch_next_crc,
            ];
            assert(crcs@ =~= status@.crcs);
            assert(out@ =~= seq![cmd_byte(0, status.epoch_now_mod8)]);
            push_crcs(&mut out, crcs.as_slice());
            push_sparses(&mut out, &status.recently_added, net_prefix);
            assert(out@ =~= command_bytes(c@, net_prefix@));
        },
        Command::Range(range) => {
            out.push(tag);
            out.push(range.page | (range.final_page << 4));
            out.push((range.stations.len() % 256) as u8);
            assert(out@ =~= seq![1u8, nibbles(range.final_page, range.page), (range.stations@.len() % 256) as u8]);
            push_heard(&mut out, &range.stations, net_prefix);
            assert(out@ =~= command_bytes(c@, net_prefix@));
        },
        Command::InsertFrame(insert) => {
            out.push(tag);
            encode_frame_with_metadata(&insert.frame, &mut out);
            assert(out@ =~= command_bytes(c@, net_prefix@));
        },
        Command::RepeatFrame(d) | Command::QuickSyncFrameResponse(d)
        | Command::BackfillFrameResponse(d) => {
            out.push(tag);
            push_station(&mut out, &d.station, net_prefix);
            encode_frame_with_metadata(&d.frame, &mut out);
            assert(out@ =~= command_bytes(c@, net_prefix@));
        },
        Command::QuickSyncFrameRequest(request) | Command::BackfillFrameRequest(request) => {
            out.push(tag);
            encode_frame_request(request, net_prefix, &mut out);
            assert(out@ =~= command_bytes(c@, net_prefix@));
        },
        Command::EpochRequest(request) => {
            out.push(tag | (request.epoch_mod8 << 5));
            push_station(&mut out, &request.target, net_prefix);
            assert(out@ =~= command_bytes(c@, net_prefix@));
        },
        Command::QuickEpochResponse(response) => {
            out.push(tag | (response.epoch_mod8 << 5));
            push_summaries(&mut out, &response.stations, net_prefix);
            assert(out@ =~= command_bytes(c@, net_prefix@));
        },
        Command::EpochResponse(response) => {
            out.push(tag | (response.epoch_mod8 << 5));
            push_crcs(&mut out, response.checksums.as_slice());
            assert(out@ =~= command_bytes(c@, net_prefix@));
        },
        Command::BucketContentRequest(request) => {
            out.push(tag | (request.epoch_mod8 << 5));
            push_station(&mut out, &request.target, net_prefix);
            out.push(request.page | (request.bucket << 4));
            assert(out@ =~= command_bytes(c@, net_prefix@));
        },
        Command::BucketContentResponse(response) => {
            out.push(tag | (response.epoch_mod8 << 5));
            out.push(response.page | (response.final_page << 4));
            push_summaries(&mut out, &response.stations, net_prefix);
            assert(out@ =~= command_bytes(c@, net_prefix@));
        },
        Command::StationDataRequest(request) => {
            out.push(tag);
            push_station(&mut out, &request.target, net_prefix);
            push_station(&mut out, &request.station, net_prefix);
            push_be16(&mut out, request.from_index | ((request.epoch_mod8 as u16) << 13));
            assert(out@ =~= command_bytes(c@, net_prefix@));
        },
        Command::StationDataResponse(response) => {
            out.push(tag);
            push_station(&mut out, &response.station, net_prefix);
            let epoch = if response.end_of_data {
                response.epoch_mod8 | 0x80
            } else {
                response.epoch_mod8
            };
            out.push(epoch);
            push_ranges(&mut out, &response.ranges);
            assert(out@ =~= command_bytes(c@, net_prefix@));
        },
        Command::PingRequest(request) => {
            out.push(tag);
            push_station(&mut out, &request.target, net_prefix);
            assert(out@ =~= command_bytes(c@, net_prefix@));
        },
        Command::PingResponse(response) => {
            out.push(tag);
            push_station(&mut out, &response.target, net_prefix);
            push_bytes(&mut out, response.diagnostic.as_str().as_bytes());
            assert(out@ =~= command_bytes(c@, net_prefix@));
        },
    }
    assert(out@ =~= command_bytes(c@, net_prefix@));
    out
}

// ---------------------------------------------------------------------------
// Decoders
/// Puts `a` in front of a successful result.
pub open spec fn prepend<T>(a: Seq<T>, r: Result<Seq<T>, Ax25Error>) -> Result<Seq<T>, Ax25Error> {
    match r {
        Ok(x) => Ok(a + x),
        Err(e) => Err(e),
    }
}

/// Reading `n` CRCs needs `4n` bytes; each is read big-endian in turn.
proof fn lemma_parse_crcs(b: Seq<u8>, n: nat)
    ensures
        parse_crcs(b, n) == (if b.len() < 4 * n {
            Err::<(Seq<u32>, Seq<u8>), Ax25Error>(Ax25Error::Truncated)
        } else {
            Ok((Seq::new(n, |i: int| read_be32(b.skip(4 * i))), b.skip(4 * n as int)))
        }),
    decreases n,
{
    if n == 0 {
        assert(Seq::new(0, |i: int| read_be32(b.skip(4 * i))) =~= Seq::<u32>::empty());
        assert(b.skip(0) =~= b);
    }
    if n > 0 && b.len() >= 4 {
        let r = b.skip(4);
        lemma_parse_crcs(r, (n - 1) as nat);
        if b.len() >= 4 * n {
            assert(r.skip(4 * (n - 1)) =~= b.skip(4 * n as int));
            assert forall|i: int| 0 <= i < n - 1 implies #[trigger] r.skip(4 * i) =~= b.skip(4 * (i + 1)) by {}
            assert(seq![read_be32(b)] + Seq::new((n - 1) as nat, |i: int| read_be32(r.skip(4 * i)))
                =~= Seq::new(n, |i: int| read_be32(b.skip(4 * i))));
        }
    }
}

/// Reads a big-endian 32-bit value from the first four bytes.
fn read_u32(buf: &[u8]) -> (r: u32)
    requires
        buf@.len() >= 4,
    ensures
        r == read_be32(buf@),
{
    ((buf[0] as u32) << 24) | ((buf[1] as u32) << 16) | ((buf[2] as u32) << 8) | (buf[3] as u32)
}

/// Reads `n` big-endian CRCs from the start of `buf`.
fn take_crcs(buf: &[u8], n: usize) -> (r: Result<(Vec<u32>, &[u8]), Ax25Error>)
    ensures
        match parse_crcs(buf@, n as nat) {
            Ok((cs, rest)) => r matches Ok((v, rr)) && v@ == cs && rr@ == rest,
            Err(e) => r matches Err(e2) && e2 == e,
        },
        r matches Ok((v, _)) ==> v@.len() == n,
{
    proof {
        lemma_parse_crcs(buf@, n as nat);
    }
    if buf.len() / 4 < n {
        assert(buf@.len() < 4 * n);
        return Err(Ax25Error::Truncated);
    }
    let len = buf.len();
    assert(4 * n <= len) by (nonlinear_arith)
        requires
            n <= len / 4,
    ;
    let mut out: Vec<u32> = Vec::new();
    let mut i: usize = 0;
    while i < n
        invariant
            len == buf@.len(),
            4 * n <= len,
            buf@.len() >= 4 * n,
            0 <= i <= n,
            out@ =~= Seq::new(i as nat, |k: int| read_be32(buf@.skip(4 * k))),
            n <= buf@.len() / 4,
        decreases n - i,
    {
        let part = vstd::slice::slice_subrange(buf, 4 * i, buf.len());
        assert(part@ =~= buf@.skip(4 * i as int));
        out.push(read_u32(part));
        i += 1;
    }
    Ok((out, vstd::slice::slice_subrange(buf, 4 * n, buf.len())))
}

/// Reads a big-endian CRC from the start of `buf`.
pub fn take_crc(buf: &[u8]) -> (r: Result<(u32, &[u8]), Ax25Error>)
    ensures
        match take_crc_spec(buf@) {
            Ok((c, rest)) => r matches Ok((c2, rr)) && c2 == c && rr@ == rest,
            Err(e) => r matches Err(e2) && e2 == e,
        },
{
    if buf.len() < 4 {
        return Err(Ax25Error::Truncated);
    }
    Ok((read_u32(buf), vstd::slice::slice_subrange(buf, 4, buf.len())))
}

/// Reads a `ContiguousRange` (top, bottom) from the start of `buf`.
pub fn take_contiguous_range(buf: &[u8]) -> (r: Result<(u16, u16, &[u8]), Ax25Error>)
    ensures
        match take_range_spec(buf@) {
            Ok((t, b, rest)) => r matches Ok((t2, b2, rr)) && t2 == t && b2 == b && rr@ == rest,
            Err(e) => r matches Err(e2) && e2 == e,
        },
{
    if buf.len() == 0 {
        return Err(Ax25Error::Truncated);
    }
    if buf[0] & 0x80 != 0 {
        if buf.len() < 2 {
            return Err(Ax25Error::Truncated);
        }
        let top = (((buf[0] & 0x7f) as u16) << 8) | (buf[1] as u16);
        Ok((top, 0, vstd::slice::slice_subrange(buf, 2, buf.len())))
    } else {
        if buf.len() < 4 {
            return Err(Ax25Error::Truncated);
        }
        let top = ((buf[0] as u16) << 8) | (buf[1] as u16);
        let bottom = ((buf[2] as u16) << 8) | (buf[3] as u16);
        Ok((top, bottom, vstd::slice::slice_subrange(buf, 4, buf.len())))
    }
}

/// Reads a station from the start of `buf`.
fn take_station<'a>(buf: &'a [u8], net_prefix: &str) -> (r: Result<(Station, &'a [u8]), Ax25Error>)
    ensures
        match take_station_spec(buf@, net_prefix@) {
            Ok((s, rest)) => r matches Ok((s2, rr)) && s2@ == s && rr@ == rest,
            Err(e) => r matches Err(e2) && e2 == e,
        },
{
    match Station::try_parse(buf, net_prefix) {
        Ok((s, rest)) => Ok((s, rest)),
        Err(_) => Err(Ax25Error::InvalidStation),
    }
}

/// Reads a `StationSummary` from the start of `buf`.
pub fn take_station_summary<'a>(buf: &'a [u8], net_prefix: &str) -> (r: Result<
    (StationSummary, &'a [u8]),
    Ax25Error,
>)
    ensures
        match take_summary_spec(buf@, net_prefix@) {
            Ok((s, rest)) => r matches Ok((s2, rr)) && s2@ == s && rr@ == rest,
            Err(e) => r matches Err(e2) && e2 == e,
        },
{
    let (station, rest) = match take_station(buf, net_prefix) {
        Ok(x) => x,
        Err(e) => return Err(e),
    };
    let (top, bottom, rest) = match take_contiguous_range(rest) {
        Ok(x) => x,
        Err(e) => return Err(e),
    };
    if bottom != 0 && bottom > top {
        return Err(Ax25Error::InvalidCommand);
    }
    let (epoch_crc, rest) = match take_crc(rest) {
        Ok(x) => x,
        Err(e) => return Err(e),
    };
    Ok((StationSummary { station, top, bottom, epoch_crc }, rest))
}

/// Reads a `StationSparse` from the start of `buf`.
fn take_station_sparse<'a>(buf: &'a [u8], net_prefix: &str) -> (r: Result<
    (StationSparse, &'a [u8]),
    Ax25Error,
>)
    ensures
        match take_sparse_spec(buf@, net_prefix@) {
            Ok((s, rest)) => r matches Ok((s2, rr)) && s2@ == s && rr@ == rest,
            Err(e) => r matches Err(e2) && e2 == e,
        },
{
    let (station, rest) = match take_station(buf, net_prefix) {
        Ok(x) => x,
        Err(e) => return Err(e),
    };
    let (top, bottom, rest) = match take_contiguous_range(rest) {
        Ok(x) => x,
        Err(e) => return Err(e),
    };
    if bottom != 0 && bottom > top {
        return Err(Ax25Error::InvalidCommand);
    }
    Ok((StationSparse { station, top, bottom }, rest))
}

/// Decodes a `FrameWithMetadata`, which takes all of `buf`.
pub fn decode_frame_with_metadata(buf: &[u8]) -> (r: Result<FrameWithMetadata, Ax25Error>)
    ensures
        match parse_frame(buf@) {
            Ok(f) => r matches Ok(f2) && f2@ == f,
            Err(e) => r matches Err(e2) && e2 == e,
        },
{
    if buf.len() < 3 {
        return Err(Ax25Error::Truncated);
    }
    let epoch_mod8 = buf[0] >> 5;
    let index = (((buf[0] as u16) << 8) | (buf[1] as u16)) & 0x1fff;
    let application = buf[2] & 0x0f;
    let start_of_message = buf[2] & 0x80 != 0;
    let end_of_message = buf[2] & 0x40 != 0;
    let data = vstd::slice::slice_to_vec(vstd::slice::slice_subrange(buf, 3, buf.len()));
    Ok(FrameWithMetadata { epoch_mod8, index, start_of_message, end_of_message, application, data })
}

/// Decodes a `FrameRequest`: target, inserter, then the epoch and index word.
pub fn decode_frame_request(buf: &[u8], net_prefix: &str) -> (r: Result<FrameRequest, Ax25Error>)
    ensures
        match parse_frame_request(buf@, net_prefix@) {
            Ok(q) => r matches Ok(q2) && q2@ == q,
            Err(e) => r matches Err(e2) && e2 == e,
        },
{
    let (target, rest) = match take_station(buf, net_prefix) {
        Ok(x) => x,
        Err(e) => return Err(e),
    };
    let (inserter, rest) = match take_station(rest, net_prefix) {
        Ok(x) => x,
        Err(e) => return Err(e),
    };
    if rest.len() < 2 {
        return Err(Ax25Error::Truncated);
    }
    let epoch_mod8 = rest[0] >> 5;
    let index = (((rest[0] as u16) << 8) | (rest[1] as u16)) & 0x1fff;
    Ok(FrameRequest { target, inserter, epoch_mod8, index })
}

/// Reads a station then a `FrameWithMetadata` that takes the rest of `buf`.
fn decode_frame_definition(buf: &[u8], net_prefix: &str) -> (r: Result<FrameDefinition, Ax25Error>)
    ensures
        match parse_frame_definition(buf@, net_prefix@) {
            Ok(d) => r matches Ok(d2) && d2@ == d,
            Err(e) => r matches Err(e2) && e2 == e,
        },
{
    let (station, rest) = match take_station(buf, net_prefix) {
        Ok(x) => x,
        Err(e) => return Err(e),
    };
    let frame = match decode_frame_with_metadata(rest) {
        Ok(f) => f,
        Err(e) => return Err(e),
    };
    Ok(FrameDefinition { station, frame })
}

/// Reads `StationSummary` entries until `buf` ends.
fn decode_summaries(buf: &[u8], net_prefix: &str) -> (r: Result<Vec<StationSummary>, Ax25Error>)
    ensures
        match parse_summaries(buf@, net_prefix@) {
            Ok(v) => r matches Ok(x) && x@.map_values(|s: StationSummary| s@) == v,
            Err(e) => r matches Err(e2) && e2 == e,
        },
{
    let mut rem = buf;
    let mut acc: Vec<StationSummary> = Vec::new();
    assert(acc@.map_values(|s: StationSummary| s@) =~= Seq::<StationSummaryView>::empty());
    assert(prepend(Seq::<StationSummaryView>::empty(), parse_summaries(buf@, net_prefix@))
        =~= parse_summaries(buf@, net_prefix@));
    while rem.len() > 0
        invariant
            parse_summaries(buf@, net_prefix@) == prepend(
                acc@.map_values(|s: StationSummary| s@),
                parse_summaries(rem@, net_prefix@),
            ),
        decreases rem@.len(),
    {
        match take_station_summary(rem, net_prefix) {
            Err(e) => {
                return Err(e);
            },
            Ok((s, r)) => {
                proof {
                    lemma_take_station_shorter(rem@, net_prefix@);
                    let a = acc@.map_values(|s: StationSummary| s@);
                    assert(acc@.push(s).map_values(|s: StationSummary| s@) =~= a.push(s@));
                    match parse_summaries(r@, net_prefix@) {
                        Ok(x) => {
                            assert(a + (seq![s@] + x) =~= a.push(s@) + x);
                        },
                        Err(_) => {},
                    }
                }
                acc.push(s);
                rem = r;
            },
        }
    }
    assert(acc@.map_values(|s: StationSummary| s@) + Seq::<StationSummaryView>::empty()
        =~= acc@.map_values(|s: StationSummary| s@));
    Ok(acc)
}

/// Reads up to four `StationSparse` entries, stopping where `buf` ends.
fn decode_sparses(buf: &[u8], net_prefix: &str) -> (r: Result<Vec<StationSparse>, Ax25Error>)
    ensures
        match parse_sparses(buf@, net_prefix@, 4) {
            Ok(v) => r matches Ok(x) && x@.map_values(|s: StationSparse| s@) == v,
            Err(e) => r matches Err(e2) && e2 == e,
        },
{
    let mut rem = buf;
    let mut acc: Vec<StationSparse> = Vec::new();
    let mut k: usize = 0;
    assert(acc@.map_values(|s: StationSparse| s@) =~= Seq::<StationSparseView>::empty());
    assert(prepend(Seq::<StationSparseView>::empty(), parse_sparses(buf@, net_prefix@, 4))
        =~= parse_sparses(buf@, net_prefix@, 4));
    while k < 4 && rem.len() > 0
        invariant
            k <= 4,
            parse_sparses(buf@, net_prefix@, 4) == prepend(
                acc@.map_values(|s: StationSparse| s@),
                parse_sparses(rem@, net_prefix@, (4 - k) as nat),
            ),
        decreases 4 - k,
    {
        match take_station_sparse(rem, net_prefix) {
            Err(e) => {
                return Err(e);
            },
            Ok((s, r)) => {
                proof {
                    let a = acc@.map_values(|s: StationSparse| s@);
                    assert(acc@.push(s).map_values(|s: StationSparse| s@) =~= a.push(s@));
                    match parse_sparses(r@, net_prefix@, (4 - k - 1) as nat) {
                        Ok(x) => {
                            assert(a + (seq![s@] + x) =~= a.push(s@) + x);
                        },
                        Err(_) => {},
                    }
                }
                acc.push(s);
                rem = r;
                k += 1;
            },
        }
    }
    assert(acc@.map_values(|s: StationSparse| s@) + Seq::<StationSparseView>::empty()
        =~= acc@.map_values(|s: StationSparse| s@));
    Ok(acc)
}

/// Reads `ContiguousRange` entries until `buf` ends.
fn decode_ranges(buf: &[u8]) -> (r: Result<Vec<ContiguousRange>, Ax25Error>)
    ensures
        match parse_ranges(buf@) {
            Ok(v) => r matches Ok(x) && x@ == v,
            Err(e) => r matches Err(e2) && e2 == e,
        },
{
    let mut rem = buf;
    let mut acc: Vec<ContiguousRange> = Vec::new();
    assert(prepend(Seq::<ContiguousRange>::empty(), parse_ranges(buf@)) =~= parse_ranges(buf@));
    while rem.len() > 0
        invariant
            parse_ranges(buf@) == prepend(acc@, parse_ranges(rem@)),
        decreases rem@.len(),
    {
        match take_contiguous_range(rem) {
            Err(e) => {
                return Err(e);
            },
            Ok((top, bottom, r)) => {
                let cr = ContiguousRange { top, bottom };
                proof {
                    match parse_ranges(r@) {
                        Ok(x) => {
                            assert(acc@ + (seq![cr] + x) =~= acc@.push(cr) + x);
                        },
                        Err(_) => {},
                    }
                }
                acc.push(cr);
                rem = r;
            },
        }
    }
    assert(acc@ + Seq::<ContiguousRange>::empty() =~= acc@);
    Ok(acc)
}

/// Reads exactly `n` stations from the start of `buf`.
fn decode_stations<'a>(buf: &'a [u8], net_prefix: &str, n: usize) -> (r: Result<
    (Vec<Station>, &'a [u8]),
    Ax25Error,
>)
    ensures
        match parse_stations(buf@, net_prefix@, n as nat) {
            Ok((v, rest)) => r matches Ok((x, rr)) && x@.map_values(|s: Station| s@) == v && rr@
                == rest,
            Err(e) => r matches Err(e2) && e2 == e,
        },
        r matches Ok((x, _)) ==> x@.len() == n,
{
    let mut rem = buf;
    let mut acc: Vec<Station> = Vec::new();
    let mut i: usize = 0;
    assert(acc@.map_values(|s: Station| s@) =~= Seq::<StationView>::empty());
    while i < n
        invariant
            i <= n,
            acc@.len() == i,
            parse_stations(buf@, net_prefix@, n as nat) == match parse_stations(
                rem@,
                net_prefix@,
                (n - i) as nat,
            ) {
                Ok((rest, m)) => Ok((acc@.map_values(|s: Station| s@) + rest, m)),
                Err(e) => Err(e),
            },
        decreases n - i,
    {
        match take_station(rem, net_prefix) {
            Err(e) => {
                return Err(e);
            },
            Ok((s, r)) => {
                proof {
                    let a = acc@.map_values(|s: Station| s@);
                    assert(acc@.push(s).map_values(|s: Station| s@) =~= a.push(s@));
                    match parse_stations(r@, net_prefix@, (n - i - 1) as nat) {
                        Ok((x, m)) => {
                            assert(a + (seq![s@] + x) =~= a.push(s@) + x);
                        },
                        Err(_) => {},
                    }
                }
                acc.push(s);
                rem = r;
                i += 1;
            },
        }
    }
    assert(acc@.map_values(|s: Station| s@) + Seq::<StationView>::empty() =~= acc@.map_values(
        |s: Station| s@,
    ));
    Ok((acc, rem))
}

/// Decodes the `Range` payload that follows the command byte.
fn decode_range(buf: &[u8], net_prefix: &str) -> (r: Result<Command, Ax25Error>)
    ensures
        match parse_range_payload(buf@, net_prefix@) {
            Ok(c) => r matches Ok(c2) && c2@ == c,
            Err(e) => r matches Err(e2) && e2 == e,
        },
{
    if buf.len() < 2 {
        return Err(Ax25Error::Truncated);
    }
    let final_page = buf[0] >> 4;
    let page = buf[0] & 0x0f;
    if page > final_page {
        return Err(Ax25Error::InvalidCommand);
    }
    let n = buf[1] as usize;
    let (stations, m) = match decode_stations(
        vstd::slice::slice_subrange(buf, 2, buf.len()),
        net_prefix,
        n,
    ) {
        Ok(x) => x,
        Err(e) => return Err(e),
    };
    let need = n / 8 + if n % 8 > 0 {
        1usize
    } else {
        0usize
    };
    assert(need == (n + 7) / 8);
    if m.len() < need {
        return Err(Ax25Error::Truncated);
    }
    let ghost sv = stations@.map_values(|s: Station| s@);
    let ghost expected = Seq::new(
        n as nat,
        |i: int| StationHeardView { station: sv[i], is_mutual: mutual_flag(m@, i) },
    );
    let mut heard: Vec<StationHeard> = Vec::new();
    let mut i: usize = 0;
    while i < n
        invariant
            n == stations@.len() == sv.len(),
            sv == stations@.map_values(|s: Station| s@),
            m@.len() >= (n + 7) / 8,
            expected == Seq::new(
                n as nat,
                |i: int| StationHeardView { station: sv[i], is_mutual: mutual_flag(m@, i) },
            ),
            0 <= i <= n,
            heard@.map_values(|s: StationHeard| s@) =~= expected.take(i as int),
        decreases n - i,
    {
        let flag = m[i / 8] & (1u8 << ((7 - i % 8) as u8)) != 0;
        assert(flag == mutual_flag(m@, i as int));
        let s = stations[i].clone();
        assert(s@ == sv[i as int]);
        let ghost before = heard@.map_values(|s: StationHeard| s@);
        heard.push(StationHeard { station: s, is_mutual: flag });
        assert(heard@.map_values(|s: StationHeard| s@) =~= before.push(expected[i as int]));
        i += 1;
    }
    assert(expected.take(n as int) =~= expected);
    Ok(Command::Range(Range { final_page, page, stations: heard }))
}

/// Decodes a command from its bytes, with stations read against `net_prefix`.
///
/// Fails with `InvalidCommand` on an empty buffer or an unknown tag, and with
/// the error of the first field that cannot be read otherwise.
#[verifier::rlimit(40)]
pub fn decode_command(info: &[u8], net_prefix: &str) -> (r: Result<Command, Ax25Error>)
    ensures
        match parse_command(info@, net_prefix@) {
            Ok(c) => r matches Ok(c2) && c2@ == c,
            Err(e) => r matches Err(e2) && e2 == e,
        },
        r matches Ok(c) ==> fields_in_range(c@),
{
    proof {
        lemma_decoded_fields_in_range(info@, net_prefix@);
    }
    if info.len() == 0 {
        return Err(Ax25Error::InvalidCommand);
    }
    let tag = info[0] & 0x1f;
    let e = info[0] >> 5;
    let rest = vstd::slice::slice_subrange(info, 1, info.len());
    assert(rest@ =~= info@.skip(1));
    if tag == 0 {
        let (crcs, r) = match take_crcs(rest, 6) {
            Ok(x) => x,
            Err(err) => return Err(err),
        };
        let recently_added = match decode_sparses(r, net_prefix) {
            Ok(x) => x,
            Err(err) => return Err(err),
        };
        let status = Status {
            epoch_now_mod8: e,
            epoch_4_ago_crc: crcs[0],
            epoch_3_ago_crc: crcs[1],
            epoch_2_ago_crc: crcs[2],
            epoch_1_ago_crc: crcs[3],
            epoch_now_crc: crcs[4],
            epoch_next_crc: crcs[5],
            recently_added,
        };
        assert(status@.crcs =~= crcs@);
        Ok(Command::Status(status))
    } else if tag == 1 {
        decode_range(rest, net_prefix)
    } else if tag == 2 {
        match decode_frame_with_metadata(rest) {
            Ok(frame) => Ok(Command::InsertFrame(InsertFrame { frame })),
            Err(err) => Err(err),
        }
    } else if tag == 3 || tag == 5 || tag == 7 {
        match decode_frame_definition(rest, net_prefix) {
            Ok(d) => Ok(
                if tag == 3 {
                    Command::RepeatFrame(d)
                } else if tag == 5 {
                    Command::QuickSyncFrameResponse(d)
                } else {
                    Command::BackfillFrameResponse(d)
                },
            ),
            Err(err) => Err(err),
        }
    } else if tag == 4 || tag == 6 {
        match decode_frame_request(rest, net_prefix) {
            Ok(q) => Ok(
                if tag == 4 {
                    Command::QuickSyncFrameRequest(q)
                } else {
                    Command::BackfillFrameRequest(q)
                },
            ),
            Err(err) => Err(err),
        }
    } else if tag == 8 {
        match take_station(rest, net_prefix) {
            Ok((target, _)) => Ok(Command::EpochRequest(EpochRequest { target, epoch_mod8: e })),
            Err(err) => Err(err),
        }
    } else if tag == 9 {
        match decode_summaries(rest, net_prefix) {
            Ok(stations) => Ok(
                Command::QuickEpochResponse(QuickEpochResponse { epoch_mod8: e, stations }),
            ),
            Err(err) => Err(err),
        }
    } else if tag == 10 {
        let (crcs, _) = match take_crcs(rest, 16) {
            Ok(x) => x,
            Err(err) => return Err(err),
        };
        let checksums: [u32; 16] = [
            crcs[0],
            crcs[1],
            crcs[2],
            crcs[3],
            crcs[4],
            crcs[5],
            crcs[6],
            crcs[7],
            crcs[8],
            crcs[9],
            crcs[10],
            crcs[11],
            crcs[12],
            crcs[13],
            crcs[14],
            crcs[15],
        ];
        assert(checksums@ =~= crcs@);
        Ok(Command::EpochResponse(EpochResponse { epoch_mod8: e, checksums }))
    } else if tag == 11 {
        match take_station(rest, net_prefix) {
            Ok((target, r)) => {
                if r.len() < 1 {
                    Err(Ax25Error::Truncated)
                } else {
                    Ok(
                        Command::BucketContentRequest(
                            BucketContentRequest {
                                target,
                                epoch_mod8: e,
                                bucket: r[0] >> 4,
                                page: r[0] & 0x0f,
                            },
                        ),
                    )
                }
            },
            Err(err) => Err(err),
        }
    } else if tag == 12 {
        if rest.len() < 1 {
            return Err(Ax25Error::Truncated);
        }
        if rest[0] & 0x0f > rest[0] >> 4 {
            return Err(Ax25Error::InvalidCommand);
        }
        let r = vstd::slice::slice_subrange(rest, 1, rest.len());
        assert(r@ =~= rest@.skip(1));
        match decode_summaries(r, net_prefix) {
            Ok(stations) => Ok(
                Command::BucketContentResponse(
                    BucketContentResponse {
                        epoch_mod8: e,
                        final_page: rest[0] >> 4,
                        page: rest[0] & 0x0f,
                        stations,
                    },
                ),
            ),
            Err(err) => Err(err),
        }
    } else if tag == 13 {
        match decode_frame_request(rest, net_prefix) {
            Ok(q) => Ok(
                Command::StationDataRequest(
                    StationDataRequest {
                        target: q.target,
                        station: q.inserter,
                        epoch_mod8: q.epoch_mod8,
                        from_index: q.index,
                    },
                ),
            ),
            Err(err) => Err(err),
        }
    } else if tag == 14 {
        let (station, r) = match take_station(rest, net_prefix) {
            Ok(x) => x,
            Err(err) => return Err(err),
        };
        if r.len() == 0 {
            return Err(Ax25Error::Truncated);
        }
        let tail = vstd::slice::slice_subrange(r, 1, r.len());
        assert(tail@ =~= r@.skip(1));
        match decode_ranges(tail) {
            Ok(ranges) => Ok(
                Command::StationDataResponse(
                    StationDataResponse {
                        station,
                        epoch_mod8: r[0] & 0x07,
                        end_of_data: r[0] & 0x80 != 0,
                        ranges,
                    },
                ),
            ),
            Err(err) => Err(err),
        }
    } else if tag == 15 {
        match take_station(rest, net_prefix) {
            Ok((target, _)) => Ok(Command::PingRequest(PingRequest { target })),
            Err(err) => Err(err),
        }
    } else if tag == 16 {
        let (target, r) = match take_station(rest, net_prefix) {
            Ok(x) => x,
            Err(err) => return Err(err),
        };
        match string_from_utf8(vstd::slice::slice_to_vec(r)) {
            Some(diagnostic) => Ok(Command::PingResponse(PingResponse { target, diagnostic })),
            None => Err(Ax25Error::InvalidUtf8),
        }
    } else {
        Err(Ax25Error::InvalidCommand)
    }
}

// ---------------------------------------------------------------------------
// Round trip
/// Field facts of the byte layouts: each packed field is read back.
proof fn lemma_field_bits(x: u16, y: u32, e: u8, i: u16, t: u8, hi: u8, lo: u8)
    by (bit_vector)
    requires
        e < 8,
        i < 8192,
        t < 32,
        hi < 16,
        lo < 16,
    ensures
        ((((x >> 8u16) as u8) as u16) << 8u16) | ((x as u8) as u16) == x,
        ((((y >> 24u32) as u8) as u32) << 24u32) | ((((y >> 16u32) as u8) as u32) << 16u32) | ((((
        y >> 8u32) as u8) as u32) << 8u32) | ((y as u8) as u32) == y,
        ((((i | ((e as u16) << 13u16)) >> 8u16) as u8) >> 5u8) == e,
        ((((((i | ((e as u16) << 13u16)) >> 8u16) as u8) as u16) << 8u16) | (((i | ((e as u16)
            << 13u16)) as u8) as u16)) & 0x1fffu16 == i,
        (t | (e << 5u8)) & 0x1fu8 == t,
        (t | (e << 5u8)) >> 5u8 == e,
        (lo | (hi << 4u8)) >> 4u8 == hi,
        (lo | (hi << 4u8)) & 0x0fu8 == lo,
        (e | 0x80u8) & 0x07u8 == e,
        (e | 0x80u8) & 0x80u8 != 0,
        e & 0x07u8 == e,
        e & 0x80u8 == 0,
{
}

/// Range facts: a top index below 0x8000 is read back in both forms.
proof fn lemma_range_bits(top: u16)
    by (bit_vector)
    requires
        top < 0x8000,
    ensures
        ((((top | 0x8000u16) >> 8u16) as u8) & 0x80u8) != 0,
        (((((((top | 0x8000u16) >> 8u16) as u8) & 0x7fu8) as u16) << 8u16) | (((top | 0x8000u16)
            as u8) as u16)) == top,
        (((top >> 8u16) as u8) & 0x80u8) == 0,
{
}

/// Frame flag facts: the application and both flags are read back.
proof fn lemma_flag_bits(app: u8, s: bool, e: bool)
    by (bit_vector)
    requires
        app < 16,
    ensures
        ({
            let a = app & 0x0fu8;
            let a = if s {
                a | 0x80u8
            } else {
                a
            };
            let f = if e {
                a | 0x40u8
            } else {
                a
            };
            &&& f & 0x0fu8 == app
            &&& (f & 0x80u8 != 0) == s
            &&& (f & 0x40u8 != 0) == e
        }),
{
}

/// Bitmap facts: with each of eight values either zero or its own bit, the
/// or of all of them shows each bit as it was.
proof fn lemma_bitmap_bits(x0: u8, x1: u8, x2: u8, x3: u8, x4: u8, x5: u8, x6: u8, x7: u8)
    by (bit_vector)
    requires
        x0 == 0 || x0 == 128,
        x1 == 0 || x1 == 64,
        x2 == 0 || x2 == 32,
        x3 == 0 || x3 == 16,
        x4 == 0 || x4 == 8,
        x5 == 0 || x5 == 4,
        x6 == 0 || x6 == 2,
        x7 == 0 || x7 == 1,
    ensures
        ({
            let b = (((((((0u8 | x0) | x1) | x2) | x3) | x4) | x5) | x6) | x7;
            &&& (b & 128u8 != 0) == (x0 != 0)
            &&& (b & 64u8 != 0) == (x1 != 0)
            &&& (b & 32u8 != 0) == (x2 != 0)
            &&& (b & 16u8 != 0) == (x3 != 0)
            &&& (b & 8u8 != 0) == (x4 != 0)
            &&& (b & 4u8 != 0) == (x5 != 0)
            &&& (b & 2u8 != 0) == (x6 != 0)
            &&& (b & 1u8 != 0) == (x7 != 0)
        }),
{
}

/// The single-bit masks.
proof fn lemma_masks()
    by (bit_vector)
    ensures
        1u8 << 7u8 == 128u8,
        1u8 << 6u8 == 64u8,
        1u8 << 5u8 == 32u8,
        1u8 << 4u8 == 16u8,
        1u8 << 3u8 == 8u8,
        1u8 << 2u8 == 4u8,
        1u8 << 1u8 == 2u8,
        1u8 << 0u8 == 1u8,
{
}

/// Highest frame index: indices take 13 bits.
pub const MAX_INDEX: u16 = 8191;

/// A valid `StationSparse`: valid station, top index at most 8191, and either
/// every frame known (`bottom` 0) or `bottom` at most `top`.
pub open spec fn is_valid_sparse(s: StationSparseView) -> bool {
    is_valid_station(s.station) && s.top <= MAX_INDEX && (s.bottom == 0 || s.bottom <= s.top)
}

/// A valid `StationSummary`: valid station, top index at most 8191, and either
/// every frame known (`bottom` 0) or `bottom` at most `top`.
pub open spec fn is_valid_summary(s: StationSummaryView) -> bool {
    is_valid_station(s.station) && s.top <= MAX_INDEX && (s.bottom == 0 || s.bottom <= s.top)
}

/// A `ContiguousRange` whose top index is at most 8191.
pub open spec fn is_valid_range(r: ContiguousRange) -> bool {
    r.top <= MAX_INDEX
}

/// A frame whose fields are in range: epoch below 8, index at most 8191,
/// application below 16.
pub open spec fn is_valid_frame(f: FrameView) -> bool {
    f.epoch_mod8 < 8 && f.index <= MAX_INDEX && f.application < 16
}

/// A frame request with valid stations, epoch below 8 and index at most 8191.
pub open spec fn is_valid_frame_request(r: FrameRequestView) -> bool {
    is_valid_station(r.target) && is_valid_station(r.inserter) && r.epoch_mod8 < 8 && r.index
        <= MAX_INDEX
}

/// A command whose fields are all in their ranges: stations valid, epochs
/// below 8, indices at most 8191, applications, final pages and buckets below
/// 16, pages at most the final page, sparse and summary entries with `bottom`
/// 0 or at most `top`, at most 4 recently-added stations in a `Status`, and at
/// most 255 stations in a `Range`.
pub open spec fn is_valid_command(c: CommandView) -> bool {
    match c {
        CommandView::Status(s) => s.epoch_now_mod8 < 8 && s.crcs.len() == 6
            && s.recently_added.len() <= 4 && forall|i: int|
            0 <= i < s.recently_added.len() ==> is_valid_sparse(#[trigger] s.recently_added[i]),
        CommandView::Range { final_page, page, stations } => final_page < 16 && page
            <= final_page && stations.len() <= 255 && forall|i: int|
            0 <= i < stations.len() ==> is_valid_station(#[trigger] stations[i].station),
        CommandView::InsertFrame(f) => is_valid_frame(f),
        CommandView::RepeatFrame(d) => is_valid_station(d.station) && is_valid_frame(d.frame),
        CommandView::QuickSyncFrameRequest(r) => is_valid_frame_request(r),
        CommandView::QuickSyncFrameResponse(d) => is_valid_station(d.station) && is_valid_frame(
            d.frame,
        ),
        CommandView::BackfillFrameRequest(r) => is_valid_frame_request(r),
        CommandView::BackfillFrameResponse(d) => is_valid_station(d.station) && is_valid_frame(
            d.frame,
        ),
        CommandView::EpochRequest { target, epoch_mod8 } => is_valid_station(target) && epoch_mod8
            < 8,
        CommandView::QuickEpochResponse { epoch_mod8, stations } => epoch_mod8 < 8 && forall|i: int|
            0 <= i < stations.len() ==> is_valid_summary(#[trigger] stations[i]),
        CommandView::EpochResponse { epoch_mod8, checksums } => epoch_mod8 < 8 && checksums.len()
            == 16,
        CommandView::BucketContentRequest { target, epoch_mod8, bucket, page } => is_valid_station(
            target,
        ) && epoch_mod8 < 8 && bucket < 16 && page < 16,
        CommandView::BucketContentResponse { epoch_mod8, final_page, page, stations } => epoch_mod8
            < 8 && final_page < 16 && page <= final_page && forall|i: int|
            0 <= i < stations.len() ==> is_valid_summary(#[trigger] stations[i]),
        CommandView::StationDataRequest { target, station, epoch_mod8, from_index } =>
            is_valid_station(target) && is_valid_station(station) && epoch_mod8 < 8 && from_index
            <= MAX_INDEX,
        CommandView::StationDataResponse { station, epoch_mod8, end_of_data, ranges } =>
            is_valid_station(station) && epoch_mod8 < 8 && forall|i: int|
            0 <= i < ranges.len() ==> is_valid_range(#[trigger] ranges[i]),
        CommandView::PingRequest { target } => is_valid_station(target),
        CommandView::PingResponse { target, diagnostic } => is_valid_station(target),
    }
}

/// The front element of a flattened mapping.
proof fn lemma_flatten_front<A>(ss: Seq<A>, f: spec_fn(A) -> Seq<u8>)
    requires
        ss.len() > 0,
    ensures
        ss.map_values(f).flatten() == f(ss[0]) + ss.drop_first().map_values(f).flatten(),
{
    assert(ss.map_values(f).drop_first() =~= ss.drop_first().map_values(f));
}

/// A valid station's encoding is read back, and what follows it is left.
proof fn lemma_take_station(s: StationView, p: Seq<char>, rest: Seq<u8>)
    requires
        is_valid_station(s),
    ensures
        take_station_spec(station_bytes(s, p) + rest, p) == Ok::<(StationView, Seq<u8>), Ax25Error>(
            (s, rest),
        ),
{
    lemma_parse_station_bytes(s, p, rest);
    assert((station_bytes(s, p) + rest).skip(station_bytes(s, p).len() as int) =~= rest);
}

/// A range with top index below 0x8000 is read back.
proof fn lemma_take_range(top: u16, bottom: u16, rest: Seq<u8>)
    requires
        top < 0x8000,
    ensures
        take_range_spec(range_bytes(top, bottom) + rest) == Ok::<(u16, u16, Seq<u8>), Ax25Error>(
            (top, bottom, rest),
        ),
{
    lemma_range_bits(top);
    lemma_field_bits(top, 0, 0, 0, 0, 0, 0);
    lemma_field_bits(bottom, 0, 0, 0, 0, 0, 0);
    let b = range_bytes(top, bottom) + rest;
    if bottom == 0 {
        assert(b.skip(2) =~= rest);
    } else {
        assert(b.skip(4) =~= rest);
    }
}

/// A big-endian CRC is read back.
proof fn lemma_take_crc(x: u32, rest: Seq<u8>)
    ensures
        take_crc_spec(be32(x) + rest) == Ok::<(u32, Seq<u8>), Ax25Error>((x, rest)),
{
    lemma_field_bits(0, x, 0, 0, 0, 0, 0);
    assert((be32(x) + rest).skip(4) =~= rest);
}

/// `n` CRCs are read back.
proof fn lemma_parse_crcs_encoded(cs: Seq<u32>, rest: Seq<u8>)
    ensures
        parse_crcs(cs.map_values(|x: u32| be32(x)).flatten() + rest, cs.len()) == Ok::<
            (Seq<u32>, Seq<u8>),
            Ax25Error,
        >((cs, rest)),
    decreases cs.len(),
{
    if cs.len() == 0 {
        assert(cs.map_values(|x: u32| be32(x)).flatten() + rest =~= rest);
        assert(cs =~= Seq::<u32>::empty());
    } else {
        let f = |x: u32| be32(x);
        lemma_flatten_front(cs, f);
        let tail = cs.drop_first().map_values(f).flatten() + rest;
        assert(cs.map_values(f).flatten() + rest =~= be32(cs[0]) + tail);
        lemma_take_crc(cs[0], tail);
        lemma_parse_crcs_encoded(cs.drop_first(), rest);
        assert(seq![cs[0]] + cs.drop_first() =~= cs);
    }
}

/// A valid summary is read back, leaving what follows it.
proof fn lemma_take_summary(s: StationSummaryView, p: Seq<char>, tail: Seq<u8>)
    requires
        is_valid_summary(s),
    ensures
        take_summary_spec(summary_bytes(s, p) + tail, p) == Ok::<
            (StationSummaryView, Seq<u8>),
            Ax25Error,
        >((s, tail)),
{
    let r2 = be32(s.epoch_crc) + tail;
    let r1 = range_bytes(s.top, s.bottom) + r2;
    lemma_take_crc(s.epoch_crc, tail);
    lemma_take_range(s.top, s.bottom, r2);
    lemma_take_station(s.station, p, r1);
    assert(summary_bytes(s, p) + tail =~= station_bytes(s.station, p) + r1);
}

/// Summaries are read back until the bytes end.
proof fn lemma_parse_summaries_encoded(ss: Seq<StationSummaryView>, p: Seq<char>)
    requires
        forall|i: int| 0 <= i < ss.len() ==> is_valid_summary(#[trigger] ss[i]),
    ensures
        parse_summaries(ss.map_values(|x: StationSummaryView| summary_bytes(x, p)).flatten(), p)
            == Ok::<Seq<StationSummaryView>, Ax25Error>(ss),
    decreases ss.len(),
{
    let f = |x: StationSummaryView| summary_bytes(x, p);
    if ss.len() == 0 {
        assert(ss =~= Seq::<StationSummaryView>::empty());
    } else {
        lemma_flatten_front(ss, f);
        let s = ss[0];
        assert(is_valid_summary(s));
        let tail = ss.drop_first().map_values(f).flatten();
        lemma_take_summary(s, p, tail);
        assert(summary_bytes(s, p).len() > 0);
        lemma_parse_summaries_encoded(ss.drop_first(), p);
        assert(seq![s] + ss.drop_first() =~= ss);
    }
}

/// Up to `k` sparse entries are read back until the bytes end.
proof fn lemma_parse_sparses_encoded(ss: Seq<StationSparseView>, p: Seq<char>, k: nat)
    requires
        ss.len() <= k,
        forall|i: int| 0 <= i < ss.len() ==> is_valid_sparse(#[trigger] ss[i]),
    ensures
        parse_sparses(ss.map_values(|x: StationSparseView| sparse_bytes(x, p)).flatten(), p, k)
            == Ok::<Seq<StationSparseView>, Ax25Error>(ss),
    decreases ss.len(),
{
    let f = |x: StationSparseView| sparse_bytes(x, p);
    if ss.len() == 0 {
        assert(ss =~= Seq::<StationSparseView>::empty());
    } else {
        lemma_flatten_front(ss, f);
        let s = ss[0];
        assert(is_valid_sparse(s));
        let tail = ss.drop_first().map_values(f).flatten();
        lemma_take_range(s.top, s.bottom, tail);
        lemma_take_station(s.station, p, range_bytes(s.top, s.bottom) + tail);
        assert(sparse_bytes(s, p) + tail =~= station_bytes(s.station, p) + (range_bytes(
            s.top,
            s.bottom,
        ) + tail));
        lemma_parse_station_len(sparse_bytes(s, p) + tail, p);
        lemma_parse_sparses_encoded(ss.drop_first(), p, (k - 1) as nat);
        assert(seq![s] + ss.drop_first() =~= ss);
    }
}

/// Ranges are read back until the bytes end.
proof fn lemma_parse_ranges_encoded(rs: Seq<ContiguousRange>)
    requires
        forall|i: int| 0 <= i < rs.len() ==> is_valid_range(#[trigger] rs[i]),
    ensures
        parse_ranges(rs.map_values(|r: ContiguousRange| range_bytes(r.top, r.bottom)).flatten())
            == Ok::<Seq<ContiguousRange>, Ax25Error>(rs),
    decreases rs.len(),
{
    let f = |r: ContiguousRange| range_bytes(r.top, r.bottom);
    if rs.len() == 0 {
        assert(rs =~= Seq::<ContiguousRange>::empty());
    } else {
        lemma_flatten_front(rs, f);
        let r = rs[0];
        assert(is_valid_range(r));
        let tail = rs.drop_first().map_values(f).flatten();
        lemma_take_range(r.top, r.bottom, tail);
        lemma_parse_ranges_encoded(rs.drop_first());
        assert(seq![ContiguousRange { top: r.top, bottom: r.bottom }] + rs.drop_first() =~= rs);
    }
}

/// The stations of a `Range` are read back, leaving what follows them.
proof fn lemma_parse_stations_encoded(st: Seq<StationHeardView>, p: Seq<char>, rest: Seq<u8>)
    requires
        forall|i: int| 0 <= i < st.len() ==> is_valid_station(#[trigger] st[i].station),
    ensures
        parse_stations(
            st.map_values(|x: StationHeardView| station_bytes(x.station, p)).flatten() + rest,
            p,
            st.len(),
        ) == Ok::<(Seq<StationView>, Seq<u8>), Ax25Error>(
            (st.map_values(|x: StationHeardView| x.station), rest),
        ),
    decreases st.len(),
{
    let f = |x: StationHeardView| station_bytes(x.station, p);
    if st.len() == 0 {
        assert(st.map_values(f).flatten() + rest =~= rest);
        assert(st.map_values(|x: StationHeardView| x.station) =~= Seq::<StationView>::empty());
    } else {
        lemma_flatten_front(st, f);
        assert(is_valid_station(st[0].station));
        let tail = st.drop_first().map_values(f).flatten() + rest;
        assert(st.map_values(f).flatten() + rest =~= station_bytes(st[0].station, p) + tail);
        lemma_take_station(st[0].station, p, tail);
        lemma_parse_stations_encoded(st.drop_first(), p, rest);
        assert(seq![st[0].station] + st.drop_first().map_values(|x: StationHeardView| x.station)
            =~= st.map_values(|x: StationHeardView| x.station));
    }
}

/// Each station's mutual flag is read back from the bitmap.
proof fn lemma_mutual_flags(st: Seq<StationHeardView>, i: int)
    requires
        0 <= i < st.len(),
    ensures
        mutual_flag(mutual_bitmap(st), i) == st[i].is_mutual,
{
    let m = i / 8;
    let bm = mutual_bitmap(st);
    assert(bm[m] == mutual_bits(st, m, 8));
    lemma_masks();
    assert(mutual_bits(st, m, 0) == 0u8);
    assert(mutual_bits(st, m, 1) == 0u8 | mutual_bit(st, 8 * m));
    assert(mutual_bits(st, m, 2) == mutual_bits(st, m, 1) | mutual_bit(st, 8 * m + 1));
    assert(mutual_bits(st, m, 3) == mutual_bits(st, m, 2) | mutual_bit(st, 8 * m + 2));
    assert(mutual_bits(st, m, 4) == mutual_bits(st, m, 3) | mutual_bit(st, 8 * m + 3));
    assert(mutual_bits(st, m, 5) == mutual_bits(st, m, 4) | mutual_bit(st, 8 * m + 4));
    assert(mutual_bits(st, m, 6) == mutual_bits(st, m, 5) | mutual_bit(st, 8 * m + 5));
    assert(mutual_bits(st, m, 7) == mutual_bits(st, m, 6) | mutual_bit(st, 8 * m + 6));
    assert(mutual_bits(st, m, 8) == mutual_bits(st, m, 7) | mutual_bit(st, 8 * m + 7));
    lemma_bitmap_bits(
        mutual_bit(st, 8 * m),
        mutual_bit(st, 8 * m + 1),
        mutual_bit(st, 8 * m + 2),
        mutual_bit(st, 8 * m + 3),
        mutual_bit(st, 8 * m + 4),
        mutual_bit(st, 8 * m + 5),
        mutual_bit(st, 8 * m + 6),
        mutual_bit(st, 8 * m + 7),
    );
}

/// A valid frame is read back.
proof fn lemma_parse_frame_encoded(f: FrameView)
    requires
        is_valid_frame(f),
    ensures
        parse_frame(frame_bytes(f)) == Ok::<FrameView, Ax25Error>(f),
{
    lemma_field_bits(index_word(f.epoch_mod8, f.index), 0, f.epoch_mod8, f.index, 0, 0, 0);
    lemma_flag_bits(f.application, f.start_of_message, f.end_of_message);
    assert(frame_bytes(f).skip(3) =~= f.data);
}

/// A station then a valid frame are read back.
proof fn lemma_parse_frame_definition_encoded(d: FrameDefinitionView, p: Seq<char>)
    requires
        is_valid_station(d.station),
        is_valid_frame(d.frame),
    ensures
        parse_frame_definition(station_bytes(d.station, p) + frame_bytes(d.frame), p) == Ok::<
            FrameDefinitionView,
            Ax25Error,
        >(d),
{
    lemma_take_station(d.station, p, frame_bytes(d.frame));
    lemma_parse_frame_encoded(d.frame);
}

/// A valid frame request is read back.
proof fn lemma_parse_frame_request_encoded(r: FrameRequestView, p: Seq<char>)
    requires
        is_valid_frame_request(r),
    ensures
        parse_frame_request(frame_request_bytes(r, p), p) == Ok::<FrameRequestView, Ax25Error>(r),
{
    let w = be16(index_word(r.epoch_mod8, r.index));
    lemma_field_bits(index_word(r.epoch_mod8, r.index), 0, r.epoch_mod8, r.index, 0, 0, 0);
    lemma_take_station(r.inserter, p, w);
    lemma_take_station(r.target, p, station_bytes(r.inserter, p) + w);
    assert(frame_request_bytes(r, p) =~= station_bytes(r.target, p) + (station_bytes(r.inserter, p)
        + w));
}

/// The tag and epoch of a command byte are read back.
proof fn lemma_cmd_byte(tag: u8, e: u8)
    requires
        tag < 32,
        e < 8,
    ensures
        cmd_byte(tag, e) & 0x1fu8 == tag,
        cmd_byte(tag, e) >> 5u8 == e,
{
    lemma_field_bits(0, 0, e, 0, tag, 0, 0);
}

/// Literal tag bytes carry their tag.
proof fn lemma_tag_bytes(t: u8)
    by (bit_vector)
    requires
        t < 32,
    ensures
        t & 0x1fu8 == t,
{
}

/// Round trip of the `Range` command.
proof fn lemma_range_payload_round_trip(final_page: u8, page: u8, stations: Seq<StationHeardView>, p: Seq<char>)
    requires
        is_valid_command(CommandView::Range { final_page, page, stations }),
    ensures
        parse_range_payload(
            command_bytes(CommandView::Range { final_page, page, stations }, p).skip(1),
            p,
        ) == Ok::<CommandView, Ax25Error>(CommandView::Range { final_page, page, stations }),
{
    let c = CommandView::Range { final_page, page, stations };
    let b = command_bytes(c, p).skip(1);
    let body = stations.map_values(|x: StationHeardView| station_bytes(x.station, p)).flatten();
    let bm = mutual_bitmap(stations);
    assert(b =~= seq![nibbles(final_page, page), (stations.len() % 256) as u8] + body + bm);
    lemma_field_bits(0, 0, 0, 0, 0, final_page, page);
    assert(b.skip(2) =~= body + bm);
    lemma_parse_stations_encoded(stations, p, bm);
    let n = stations.len();
    assert(b[1] as nat == n);
    let sv = stations.map_values(|x: StationHeardView| x.station);
    assert forall|i: int| 0 <= i < n implies #[trigger] stations[i] == (StationHeardView {
        station: sv[i],
        is_mutual: mutual_flag(bm, i),
    }) by {
        lemma_mutual_flags(stations, i);
    }
    assert(Seq::new(
        n,
        |i: int| StationHeardView { station: sv[i], is_mutual: mutual_flag(bm, i) },
    ) =~= stations);
}

/// Round trip of the status command.
#[verifier::rlimit(40)]
proof fn lemma_status_round_trip(s: StatusView, p: Seq<char>)
    requires
        is_valid_command(CommandView::Status(s)),
    ensures
        parse_command(command_bytes(CommandView::Status(s), p), p) == Ok::<CommandView, Ax25Error>(CommandView::Status(s)),
{
    let r = command_bytes(CommandView::Status(s), p).skip(1);
    lemma_cmd_byte(0, s.epoch_now_mod8);
    let sp = s.recently_added.map_values(|x: StationSparseView| sparse_bytes(x, p)).flatten();
    assert(r =~= s.crcs.map_values(|x: u32| be32(x)).flatten() + sp);
    lemma_parse_crcs_encoded(s.crcs, sp);
    lemma_parse_sparses_encoded(s.recently_added, p, 4);
}

/// Round trip of the quick epoch response command.
#[verifier::rlimit(40)]
proof fn lemma_quick_epoch_response_round_trip(epoch_mod8: u8, stations: Seq<StationSummaryView>, p: Seq<char>)
    requires
        is_valid_command(CommandView::QuickEpochResponse { epoch_mod8, stations }),
    ensures
        parse_command(command_bytes(CommandView::QuickEpochResponse { epoch_mod8, stations }, p), p) == Ok::<CommandView, Ax25Error>(CommandView::QuickEpochResponse { epoch_mod8, stations }),
{
    let r = command_bytes(CommandView::QuickEpochResponse { epoch_mod8, stations }, p).skip(1);
    lemma_cmd_byte(9, epoch_mod8);
    assert(r =~= stations.map_values(|x: StationSummaryView| summary_bytes(x, p)).flatten());
    lemma_parse_summaries_encoded(stations, p);
}

/// Round trip of the epoch response command.
proof fn lemma_epoch_response_round_trip(epoch_mod8: u8, checksums: Seq<u32>, p: Seq<char>)
    requires
        is_valid_command(CommandView::EpochResponse { epoch_mod8, checksums }),
    ensures
        parse_command(command_bytes(CommandView::EpochResponse { epoch_mod8, checksums }, p), p) == Ok::<CommandView, Ax25Error>(CommandView::EpochResponse { epoch_mod8, checksums }),
{
    let r = command_bytes(CommandView::EpochResponse { epoch_mod8, checksums }, p).skip(1);
    lemma_cmd_byte(10, epoch_mod8);
    assert(r =~= checksums.map_values(|x: u32| be32(x)).flatten() + Seq::<u8>::empty());
    lemma_parse_crcs_encoded(checksums, Seq::empty());
}

/// Round trip of the bucket content response command.
#[verifier::rlimit(40)]
proof fn lemma_bucket_content_response_round_trip(epoch_mod8: u8, final_page: u8, page: u8, stations: Seq<StationSummaryView>, p: Seq<char>)
    requires
        is_valid_command(CommandView::BucketContentResponse { epoch_mod8, final_page, page, stations }),
    ensures
        parse_command(command_bytes(CommandView::BucketContentResponse { epoch_mod8, final_page, page, stations }, p), p) == Ok::<CommandView, Ax25Error>(CommandView::BucketContentResponse { epoch_mod8, final_page, page, stations }),
{
    let r = command_bytes(CommandView::BucketContentResponse { epoch_mod8, final_page, page, stations }, p).skip(1);
    lemma_cmd_byte(12, epoch_mod8);
    lemma_field_bits(0, 0, 0, 0, 0, final_page, page);
    assert(r.skip(1) =~= stations.map_values(|x: StationSummaryView| summary_bytes(x, p)).flatten());
    lemma_parse_summaries_encoded(stations, p);
}

/// Round trip of the station data response command.
#[verifier::rlimit(40)]
proof fn lemma_station_data_response_round_trip(station: StationView, epoch_mod8: u8, end_of_data: bool, ranges: Seq<ContiguousRange>, p: Seq<char>)
    requires
        is_valid_command(CommandView::StationDataResponse { station, epoch_mod8, end_of_data, ranges }),
    ensures
        parse_command(command_bytes(CommandView::StationDataResponse { station, epoch_mod8, end_of_data, ranges }, p), p) == Ok::<CommandView, Ax25Error>(CommandView::StationDataResponse { station, epoch_mod8, end_of_data, ranges }),
{
    let r = command_bytes(CommandView::StationDataResponse { station, epoch_mod8, end_of_data, ranges }, p).skip(1);
    lemma_tag_bytes(14);
    lemma_field_bits(0, 0, epoch_mod8, 0, 0, 0, 0);
    let eb: u8 = if end_of_data {
        epoch_mod8 | 0x80u8
    } else {
        epoch_mod8
    };
    let rb = ranges.map_values(|x: ContiguousRange| range_bytes(x.top, x.bottom)).flatten();
    assert(r =~= station_bytes(station, p) + (seq![eb] + rb));
    lemma_take_station(station, p, seq![eb] + rb);
    assert((seq![eb] + rb).skip(1) =~= rb);
    lemma_parse_ranges_encoded(ranges);
}

/// Round trip of the insert frame command.
proof fn lemma_insert_frame_round_trip(f: FrameView, p: Seq<char>)
    requires
        is_valid_command(CommandView::InsertFrame(f)),
    ensures
        parse_command(command_bytes(CommandView::InsertFrame(f), p), p) == Ok::<CommandView, Ax25Error>(CommandView::InsertFrame(f)),
{
    let r = command_bytes(CommandView::InsertFrame(f), p).skip(1);
    lemma_tag_bytes(2);
    assert(r =~= frame_bytes(f));
    lemma_parse_frame_encoded(f);
}

/// Round trip of the repeat frame command.
proof fn lemma_repeat_frame_round_trip(d: FrameDefinitionView, p: Seq<char>)
    requires
        is_valid_command(CommandView::RepeatFrame(d)),
    ensures
        parse_command(command_bytes(CommandView::RepeatFrame(d), p), p) == Ok::<CommandView, Ax25Error>(CommandView::RepeatFrame(d)),
{
    let r = command_bytes(CommandView::RepeatFrame(d), p).skip(1);
    lemma_tag_bytes(3);
    assert(r =~= station_bytes(d.station, p) + frame_bytes(d.frame));
    lemma_parse_frame_definition_encoded(d, p);
}

/// Round trip of the quick sync frame response command.
proof fn lemma_quick_sync_frame_response_round_trip(d: FrameDefinitionView, p: Seq<char>)
    requires
        is_valid_command(CommandView::QuickSyncFrameResponse(d)),
    ensures
        parse_command(command_bytes(CommandView::QuickSyncFrameResponse(d), p), p) == Ok::<CommandView, Ax25Error>(CommandView::QuickSyncFrameResponse(d)),
{
    let r = command_bytes(CommandView::QuickSyncFrameResponse(d), p).skip(1);
    lemma_tag_bytes(5);
    assert(r =~= station_bytes(d.station, p) + frame_bytes(d.frame));
    lemma_parse_frame_definition_encoded(d, p);
}

/// Round trip of the backfill frame response command.
proof fn lemma_backfill_frame_response_round_trip(d: FrameDefinitionView, p: Seq<char>)
    requires
        is_valid_command(CommandView::BackfillFrameResponse(d)),
    ensures
        parse_command(command_bytes(CommandView::BackfillFrameResponse(d), p), p) == Ok::<CommandView, Ax25Error>(CommandView::BackfillFrameResponse(d)),
{
    let r = command_bytes(CommandView::BackfillFrameResponse(d), p).skip(1);
    lemma_tag_bytes(7);
    assert(r =~= station_bytes(d.station, p) + frame_bytes(d.frame));
    lemma_parse_frame_definition_encoded(d, p);
}

/// Round trip of the quick sync frame request command.
proof fn lemma_quick_sync_frame_request_round_trip(q: FrameRequestView, p: Seq<char>)
    requires
        is_valid_command(CommandView::QuickSyncFrameRequest(q)),
    ensures
        parse_command(command_bytes(CommandView::QuickSyncFrameRequest(q), p), p) == Ok::<CommandView, Ax25Error>(CommandView::QuickSyncFrameRequest(q)),
{
    let r = command_bytes(CommandView::QuickSyncFrameRequest(q), p).skip(1);
    lemma_tag_bytes(4);
    assert(r =~= frame_request_bytes(q, p));
    lemma_parse_frame_request_encoded(q, p);
}

/// Round trip of the backfill frame request command.
proof fn lemma_backfill_frame_request_round_trip(q: FrameRequestView, p: Seq<char>)
    requires
        is_valid_command(CommandView::BackfillFrameRequest(q)),
    ensures
        parse_command(command_bytes(CommandView::BackfillFrameRequest(q), p), p) == Ok::<CommandView, Ax25Error>(CommandView::BackfillFrameRequest(q)),
{
    let r = command_bytes(CommandView::BackfillFrameRequest(q), p).skip(1);
    lemma_tag_bytes(6);
    assert(r =~= frame_request_bytes(q, p));
    lemma_parse_frame_request_encoded(q, p);
}

/// Round trip of the epoch request command.
proof fn lemma_epoch_request_round_trip(target: StationView, epoch_mod8: u8, p: Seq<char>)
    requires
        is_valid_command(CommandView::EpochRequest { target, epoch_mod8 }),
    ensures
        parse_command(command_bytes(CommandView::EpochRequest { target, epoch_mod8 }, p), p) == Ok::<CommandView, Ax25Error>(CommandView::EpochRequest { target, epoch_mod8 }),
{
    let r = command_bytes(CommandView::EpochRequest { target, epoch_mod8 }, p).skip(1);
    lemma_cmd_byte(8, epoch_mod8);
    assert(r =~= station_bytes(target, p) + Seq::<u8>::empty());
    lemma_take_station(target, p, Seq::empty());
}

/// Round trip of the bucket content request command.
proof fn lemma_bucket_content_request_round_trip(target: StationView, epoch_mod8: u8, bucket: u8, page: u8, p: Seq<char>)
    requires
        is_valid_command(CommandView::BucketContentRequest { target, epoch_mod8, bucket, page }),
    ensures
        parse_command(command_bytes(CommandView::BucketContentRequest { target, epoch_mod8, bucket, page }, p), p) == Ok::<CommandView, Ax25Error>(CommandView::BucketContentRequest { target, epoch_mod8, bucket, page }),
{
    let r = command_bytes(CommandView::BucketContentRequest { target, epoch_mod8, bucket, page }, p).skip(1);
    lemma_cmd_byte(11, epoch_mod8);
    lemma_field_bits(0, 0, 0, 0, 0, bucket, page);
    assert(r =~= station_bytes(target, p) + seq![nibbles(bucket, page)]);
    lemma_take_station(target, p, seq![nibbles(bucket, page)]);
}

/// Round trip of the station data request command.
proof fn lemma_station_data_request_round_trip(target: StationView, station: StationView, epoch_mod8: u8, from_index: u16, p: Seq<char>)
    requires
        is_valid_command(CommandView::StationDataRequest { target, station, epoch_mod8, from_index }),
    ensures
        parse_command(command_bytes(CommandView::StationDataRequest { target, station, epoch_mod8, from_index }, p), p) == Ok::<CommandView, Ax25Error>(CommandView::StationDataRequest { target, station, epoch_mod8, from_index }),
{
    let r = command_bytes(CommandView::StationDataRequest { target, station, epoch_mod8, from_index }, p).skip(1);
    lemma_tag_bytes(13);
    let q = FrameRequestView { target, inserter: station, epoch_mod8, index: from_index };
    assert(r =~= frame_request_bytes(q, p));
    lemma_parse_frame_request_encoded(q, p);
}

/// Round trip of the ping request command.
proof fn lemma_ping_request_round_trip(target: StationView, p: Seq<char>)
    requires
        is_valid_command(CommandView::PingRequest { target }),
    ensures
        parse_command(command_bytes(CommandView::PingRequest { target }, p), p) == Ok::<CommandView, Ax25Error>(CommandView::PingRequest { target }),
{
    let r = command_bytes(CommandView::PingRequest { target }, p).skip(1);
    lemma_tag_bytes(15);
    assert(r =~= station_bytes(target, p) + Seq::<u8>::empty());
    lemma_take_station(target, p, Seq::empty());
}

/// Round trip of the ping response command.
proof fn lemma_ping_response_round_trip(target: StationView, diagnostic: Seq<char>, p: Seq<char>)
    requires
        is_valid_command(CommandView::PingResponse { target, diagnostic }),
    ensures
        parse_command(command_bytes(CommandView::PingResponse { target, diagnostic }, p), p) == Ok::<CommandView, Ax25Error>(CommandView::PingResponse { target, diagnostic }),
{
    let r = command_bytes(CommandView::PingResponse { target, diagnostic }, p).skip(1);
    lemma_tag_bytes(16);
    assert(r =~= station_bytes(target, p) + encode_utf8(diagnostic));
    lemma_take_station(target, p, encode_utf8(diagnostic));
    encode_utf8_valid_utf8(diagnostic);
    encode_utf8_decode_utf8(diagnostic);
}

/// Round trip of the range command.
proof fn lemma_range_round_trip(final_page: u8, page: u8, stations: Seq<StationHeardView>, p: Seq<char>)
    requires
        is_valid_command(CommandView::Range { final_page, page, stations }),
    ensures
        parse_command(command_bytes(CommandView::Range { final_page, page, stations }, p), p) == Ok::<CommandView, Ax25Error>(CommandView::Range { final_page, page, stations }),
{
    let r = command_bytes(CommandView::Range { final_page, page, stations }, p).skip(1);
    lemma_tag_bytes(1);
    lemma_range_payload_round_trip(final_page, page, stations, p);
}

/// Round trip: decoding the bytes of a valid command, with the prefix used to
/// encode it, gives the command back.
pub proof fn lemma_command_round_trip(c: CommandView, p: Seq<char>)
    requires
        is_valid_command(c),
    ensures
        parse_command(command_bytes(c, p), p) == Ok::<CommandView, Ax25Error>(c),
{
    match c {
        CommandView::Status(s) => lemma_status_round_trip(s, p),
        CommandView::QuickEpochResponse { epoch_mod8, stations } => lemma_quick_epoch_response_round_trip(epoch_mod8, stations, p),
        CommandView::EpochResponse { epoch_mod8, checksums } => lemma_epoch_response_round_trip(epoch_mod8, checksums, p),
        CommandView::BucketContentResponse { epoch_mod8, final_page, page, stations } => lemma_bucket_content_response_round_trip(epoch_mod8, final_page, page, stations, p),
        CommandView::StationDataResponse { station, epoch_mod8, end_of_data, ranges } => lemma_station_data_response_round_trip(station, epoch_mod8, end_of_data, ranges, p),
        CommandView::InsertFrame(f) => lemma_insert_frame_round_trip(f, p),
        CommandView::RepeatFrame(d) => lemma_repeat_frame_round_trip(d, p),
        CommandView::QuickSyncFrameResponse(d) => lemma_quick_sync_frame_response_round_trip(d, p),
        CommandView::BackfillFrameResponse(d) => lemma_backfill_frame_response_round_trip(d, p),
        CommandView::QuickSyncFrameRequest(q) => lemma_quick_sync_frame_request_round_trip(q, p),
        CommandView::BackfillFrameRequest(q) => lemma_backfill_frame_request_round_trip(q, p),
        CommandView::EpochRequest { target, epoch_mod8 } => lemma_epoch_request_round_trip(target, epoch_mod8, p),
        CommandView::BucketContentRequest { target, epoch_mod8, bucket, page } => lemma_bucket_content_request_round_trip(target, epoch_mod8, bucket, page, p),
        CommandView::StationDataRequest { target, station, epoch_mod8, from_index } => lemma_station_data_request_round_trip(target, station, epoch_mod8, from_index, p),
        CommandView::PingRequest { target } => lemma_ping_request_round_trip(target, p),
        CommandView::PingResponse { target, diagnostic } => lemma_ping_response_round_trip(target, diagnostic, p),
        CommandView::Range { final_page, page, stations } => lemma_range_round_trip(final_page, page, stations, p),
    }
}


/// The numeric fields of a command are in their wire ranges: epochs below 8,
/// frame indices at most 8191, applications, final pages and buckets below
/// 16, and pages at most the final page.
pub open spec fn fields_in_range(c: CommandView) -> bool {
    match c {
        CommandView::Status(s) => s.epoch_now_mod8 < 8,
        CommandView::Range { final_page, page, .. } => final_page < 16 && page <= final_page,
        CommandView::InsertFrame(f) => is_valid_frame(f),
        CommandView::RepeatFrame(d) => is_valid_frame(d.frame),
        CommandView::QuickSyncFrameRequest(r) => r.epoch_mod8 < 8 && r.index <= MAX_INDEX,
        CommandView::QuickSyncFrameResponse(d) => is_valid_frame(d.frame),
        CommandView::BackfillFrameRequest(r) => r.epoch_mod8 < 8 && r.index <= MAX_INDEX,
        CommandView::BackfillFrameResponse(d) => is_valid_frame(d.frame),
        CommandView::EpochRequest { epoch_mod8, .. } => epoch_mod8 < 8,
        CommandView::QuickEpochResponse { epoch_mod8, .. } => epoch_mod8 < 8,
        CommandView::EpochResponse { epoch_mod8, .. } => epoch_mod8 < 8,
        CommandView::BucketContentRequest { epoch_mod8, bucket, page, .. } => epoch_mod8 < 8
            && bucket < 16 && page < 16,
        CommandView::BucketContentResponse { epoch_mod8, final_page, page, .. } => epoch_mod8 < 8
            && final_page < 16 && page <= final_page,
        CommandView::StationDataRequest { epoch_mod8, from_index, .. } => epoch_mod8 < 8
            && from_index <= MAX_INDEX,
        CommandView::StationDataResponse { epoch_mod8, .. } => epoch_mod8 < 8,
        CommandView::PingRequest { .. } => true,
        CommandView::PingResponse { .. } => true,
    }
}

/// Bit facts: the shifted and masked fields fit their widths.
proof fn lemma_field_widths(x: u8, y: u8, w: u16)
    by (bit_vector)
    ensures
        x >> 5u8 < 8,
        x >> 4u8 < 16,
        x & 0x0fu8 < 16,
        x & 0x07u8 < 8,
        (((x as u16) << 8u16) | (y as u16)) & 0x1fffu16 <= 8191,
        w & 0x1fffu16 <= 8191,
{
}

/// Every field of a decoded command is in its wire range.
pub proof fn lemma_decoded_fields_in_range(b: Seq<u8>, p: Seq<char>)
    ensures
        parse_command(b, p) matches Ok(c) ==> fields_in_range(c),
{
    if b.len() > 0 {
        lemma_field_widths(b[0], 0, 0);
        let r = b.skip(1);
        if r.len() >= 2 {
            lemma_field_widths(r[0], r[1], 0);
        }
        if r.len() >= 1 {
            lemma_field_widths(r[0], 0, 0);
        }
        if r.len() >= 3 {
            lemma_field_widths(r[2], 0, 0);
        }
        if let Ok((_, q)) = take_station_spec(r, p) {
            if q.len() >= 3 {
                lemma_field_widths(q[0], q[1], 0);
                lemma_field_widths(q[2], 0, 0);
            } else if q.len() >= 1 {
                lemma_field_widths(q[0], 0, 0);
            }
            if let Ok((_, q2)) = take_station_spec(q, p) {
                if q2.len() >= 2 {
                    lemma_field_widths(q2[0], q2[1], 0);
                }
            }
        }
    }
}

} // verus!
