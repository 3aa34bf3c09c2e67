//! Week-long blocks of time within which data is synced.
//!
//! Epoch 0 starts at 2020-01-01 00:00:00 UTC and each epoch lasts 7 days. On
//! the wire only the low 3 bits of an epoch travel; the receiver restores the
//! rest from its own clock.

use vstd::prelude::*;

use crate::error::Error;

verus! {

/// 2020-01-01 00:00:00 UTC, in seconds since the Unix epoch.
pub const ORIGIN_UNIX_SECONDS: i64 = 1577836800;

/// Seconds in a week.
pub const WEEK_SECONDS: i64 = 604800;

/// The epoch of a time given in seconds since the Unix epoch: whole weeks since
/// the origin, 0 for earlier times, and `u32::MAX` for times past that many weeks.
pub open spec fn epoch_of_time(unix_seconds: int) -> nat {
    if unix_seconds < ORIGIN_UNIX_SECONDS {
        0
    } else if (unix_seconds - ORIGIN_UNIX_SECONDS) / (WEEK_SECONDS as int) > u32::MAX {
        u32::MAX as nat
    } else {
        ((unix_seconds - ORIGIN_UNIX_SECONDS) / (WEEK_SECONDS as int)) as nat
    }
}

/// Whether `e` is an epoch that residue `m` may stand for, seen from epoch
/// `now`: `e` has residue `m` and lies from 5 weeks before `now` to 1 week after.
pub open spec fn in_mod8_window(e: int, m: int, now: int) -> bool {
    0 <= e <= u32::MAX && e % 8 == m && now - 5 <= e <= now + 1
}

/// The epoch that residue `m` stands for, seen from epoch `now`, if any.
pub open spec fn restore_mod8(m: int, now: int) -> Option<int> {
    if exists|e: int| in_mod8_window(e, m, now) {
        Some(choose|e: int| in_mod8_window(e, m, now))
    } else {
        None
    }
}

/// Seen from an epoch `now` (from 5 to `u32::MAX - 1`), the residues of the
/// seven epochs from `now - 5` to `now + 1` each restore that epoch: five
/// before `now`, `now` itself and one after it. The eighth residue, that of
/// `now + 2`, restores nothing.
pub proof fn lemma_mod8_residues(now: int)
    requires
        5 <= now < u32::MAX,
    ensures
        forall|k: int| -5 <= k <= 1 ==> #[trigger] restore_mod8((now + k) % 8, now) == Some(now + k),
        restore_mod8((now + 2) % 8, now) is None,
{
    assert forall|k: int| -5 <= k <= 1 implies #[trigger] restore_mod8((now + k) % 8, now) == Some(
        now + k,
    ) by {
        let m = (now + k) % 8;
        assert(in_mod8_window(now + k, m, now));
        assert forall|e: int| in_mod8_window(e, m, now) implies e == now + k by {
            assert((e - (now + k)) % 8 == 0);
            assert(-8 < e - (now + k) < 8);
        }
    }
    assert forall|e: int| !#[trigger] in_mod8_window(e, (now + 2) % 8, now) by {
        if in_mod8_window(e, (now + 2) % 8, now) {
            assert((e - (now + 2)) % 8 == 0);
            assert(-8 < e - (now + 2) < 0);
        }
    }
}

/// The residues (0-7) whose restored epoch, seen from `now`, satisfies `pick`;
/// `pick` is given `None` for a residue that restores nothing.
pub open spec fn residues_where(now: int, pick: spec_fn(Option<int>) -> bool) -> Set<int> {
    Set::new(|m: int| 0 <= m < 8 && pick(restore_mod8(m, now)))
}

/// The offset `k` from -5 to 2 for which residue `m` (0-7) is that of `now + k`.
spec fn offset_of_residue(m: int, now: int) -> int {
    let d = m - now % 8;
    if d <= -6 {
        d + 8
    } else if d > 2 {
        d - 8
    } else {
        d
    }
}

/// Seen from an epoch `now` (from 5 to `u32::MAX - 1`), of the eight residues
/// exactly five restore an epoch before `now`, one restores `now`, one restores
/// a later epoch, and one restores nothing.
pub proof fn lemma_mod8_residue_counts(now: int)
    requires
        5 <= now < u32::MAX,
    ensures
        residues_where(now, |r: Option<int>| r matches Some(e) && e < now).len() == 5,
        residues_where(now, |r: Option<int>| r == Some(now)).len() == 1,
        residues_where(now, |r: Option<int>| r matches Some(e) && e > now).len() == 1,
        residues_where(now, |r: Option<int>| r is None).len() == 1,
{
    lemma_mod8_residues(now);
    let res = |k: int| (now + k) % 8;
    let past = residues_where(now, |r: Option<int>| r matches Some(e) && e < now);
    let past_set = set![res(-5), res(-4), res(-3), res(-2), res(-1)];
    assert forall|m: int| #[trigger] past.contains(m) <==> past_set.contains(m) by {
        if 0 <= m < 8 {
            let k = offset_of_residue(m, now);
            if k == 2 {
                assert(restore_mod8(m, now) is None);
            } else {
                assert(restore_mod8(res(k), now) == Some(now + k));
            }
        }
    }
    assert(past =~= past_set);
    let cur = residues_where(now, |r: Option<int>| r == Some(now));
    assert forall|m: int| #[trigger] cur.contains(m) <==> m == res(0) by {
        if 0 <= m < 8 {
            let k = offset_of_residue(m, now);
            if k == 2 {
                assert(restore_mod8(m, now) is None);
            } else {
                assert(restore_mod8(res(k), now) == Some(now + k));
            }
        }
    }
    assert(cur =~= set![res(0)]);
    let fut = residues_where(now, |r: Option<int>| r matches Some(e) && e > now);
    assert forall|m: int| #[trigger] fut.contains(m) <==> m == res(1) by {
        if 0 <= m < 8 {
            let k = offset_of_residue(m, now);
            if k == 2 {
                assert(restore_mod8(m, now) is None);
            } else {
                assert(restore_mod8(res(k), now) == Some(now + k));
            }
        }
    }
    assert(fut =~= set![res(1)]);
    let none = residues_where(now, |r: Option<int>| r is None);
    assert forall|m: int| #[trigger] none.contains(m) <==> m == res(2) by {
        if 0 <= m < 8 {
            let k = offset_of_residue(m, now);
            if k != 2 {
                assert(restore_mod8(res(k), now) == Some(now + k));
            }
        }
    }
    assert(none =~= set![res(2)]);
}

/// Relies on `time::OffsetDateTime::now_utc` and `unix_timestamp`: the current
/// time in whole seconds since the Unix epoch. Nothing is promised of its value.
#[verifier::external_body]
fn unix_time_now() -> i64 {
    time::OffsetDateTime::now_utc().unix_timestamp()
}

/// Whether candidate `c` is the epoch that residue `m` stands for, seen from `n`.
fn window_contains(c: i64, m: i64, n: i64) -> (r: bool)
    requires
        0 <= m < 8,
        0 <= n <= u32::MAX,
    ensures
        r == in_mod8_window(c as int, m as int, n as int),
        r ==> (forall|e: int| in_mod8_window(e, m as int, n as int) ==> e == c),
{
    let r = 0 <= c && c <= u32::MAX as i64 && n - 5 <= c && c <= n + 1 && c % 8 == m;
    proof {
        assert forall|e: int| r && in_mod8_window(e, m as int, n as int) implies e == c by {
            assert((e - c) % 8 == 0);
            assert(-8 < e - c < 8);
        }
    }
    r
}

/// A particular week, numbered from 0 at 2020-01-01 00:00:00 UTC.
///
/// * Epoch 0 lasts from 2020-01-01 00:00:00 to 2020-01-07 23:59:59.
/// * Epoch 1 lasts from 2020-01-08 00:00:00 to 2020-01-14 23:59:59.
/// * And so on.
#[derive(Debug, Clone, Copy, PartialEq, Eq, Structural)]
pub struct Epoch {
    abs: u32,
}

impl View for Epoch {
    type V = nat;

    closed spec fn view(&self) -> nat {
        self.abs as nat
    }
}

impl Epoch {
    /// The current epoch, by the wall clock.
    pub fn now() -> (r: Epoch) {
        Epoch::at(unix_time_now())
    }

    /// The epoch of a time given in seconds since the Unix epoch (UTC).
    pub fn at(unix_seconds: i64) -> (r: Epoch)
        ensures
            r@ == epoch_of_time(unix_seconds as int),
    {
        if unix_seconds < ORIGIN_UNIX_SECONDS {
            return Epoch { abs: 0 };
        }
        let weeks = (unix_seconds - ORIGIN_UNIX_SECONDS) / WEEK_SECONDS;
        if weeks > u32::MAX as i64 {
            Epoch { abs: u32::MAX }
        } else {
            Epoch { abs: weeks as u32 }
        }
    }

    /// Restores an epoch from its low 3 bits, seen from epoch `now`.
    ///
    /// The sender only abbreviates the current epoch or one of the 4 before it;
    /// allowing a week of clock skew either way, the receiver accepts epochs
    /// from `now - 5` to `now + 1`. The one residue left over means the clocks
    /// disagree badly and gives `UnreadableEpoch`, as does a value of 8 or more.
    pub fn from_mod8_at(mod8: u8, now: &Epoch) -> (r: Result<Epoch, Error>)
        ensures
            match restore_mod8(mod8 as int, now@ as int) {
                Some(e) => r matches Ok(x) && x@ == e,
                None => r == Err::<Epoch, Error>(Error::UnreadableEpoch),
            },
    {
        if mod8 >= 8 {
            assert(forall|e: int| !in_mod8_window(e, mod8 as int, now@ as int));
            return Err(Error::UnreadableEpoch);
        }
        let n = now.abs as i64;
        let m = mod8 as i64;
        let base = n - n % 8 + m;
        let c0 = base;
        let c1 = base - 8;
        let c2 = base + 8;
        proof {
            assert forall|e: int| in_mod8_window(e, m as int, n as int) implies e == c0 || e == c1
                || e == c2 by {
                assert(m < 8);
                assert((e - base) % 8 == 0);
                assert(-16 < e - base < 16);
            }
        }
        if window_contains(c0, m, n) {
            return Ok(Epoch { abs: c0 as u32 });
        }
        if window_contains(c1, m, n) {
            return Ok(Epoch { abs: c1 as u32 });
        }
        if window_contains(c2, m, n) {
            return Ok(Epoch { abs: c2 as u32 });
        }
        Err(Error::UnreadableEpoch)
    }

    /// Restores an epoch from its low 3 bits, seen from the current epoch by the
    /// wall clock (see `from_mod8_at`).
    pub fn from_mod8(mod8: u8) -> (r: Result<Epoch, Error>)
        ensures
            r matches Ok(e) ==> e@ % 8 == mod8,
            r matches Err(e) ==> e == Error::UnreadableEpoch,
            mod8 >= 8 ==> r == Err::<Epoch, Error>(Error::UnreadableEpoch),
    {
        let now = Epoch::now();
        Epoch::from_mod8_at(mod8, &now)
    }

    /// Absolute numeric index of this epoch.
    pub fn index_abs(&self) -> (r: u32)
        ensures
            r == self@,
    {
        self.abs
    }

    /// The last 3 bits of this epoch's index, for transmission.
    ///
    /// For the receiver to restore it, only the current epoch or one of the 4
    /// epochs before it should be abbreviated.
    pub fn index_mod8(&self) -> (r: u8)
        ensures
            r == self@ % 8,
    {
        (self.abs % 8) as u8
    }

    /// How many weeks old this epoch is, seen from epoch `now`; negative for
    /// an epoch in the future.
    pub fn age_at(&self, now: &Epoch) -> (r: i64)
        ensures
            r == now@ - self@,
    {
        now.abs as i64 - self.abs as i64
    }

    /// How many weeks old this epoch is, by the wall clock.
    pub fn age(&self) -> (r: i64)
        ensures
            r <= u32::MAX - self@,
            r >= -(self@ as int),
    {
        let now = Epoch::now();
        self.age_at(&now)
    }
}

/// An hour within an epoch (index 0 to 167), during which frames were received.
pub struct Block {
    epoch: Epoch,
    index: u32,
}

impl View for Block {
    type V = (nat, u32);

    closed spec fn view(&self) -> (nat, u32) {
        (self.epoch@, self.index)
    }
}

impl Block {
    /// The epoch this block belongs to.
    pub fn epoch(&self) -> (r: &Epoch)
        ensures
            r@ == self@.0,
    {
        &self.epoch
    }

    /// The hour of this block within its epoch.
    pub fn index(&self) -> (r: u32)
        ensures
            r == self@.1,
    {
        self.index
    }
}

} // verus!
