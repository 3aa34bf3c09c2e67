use chatteroo::epoch::Epoch;
use chatteroo::error::Error;
use time::{Date, Month};

fn unix(year: i32, month: Month, day: u8, h: u8, m: u8, s: u8) -> i64 {
    Date::from_calendar_date(year, month, day)
        .unwrap()
        .with_hms(h, m, s)
        .unwrap()
        .assume_utc()
        .unix_timestamp()
}

#[test]
fn epoch_edges() {
    let epoch0_start = unix(2020, Month::January, 1, 0, 0, 0);
    let epoch0_end = unix(2020, Month::January, 7, 23, 59, 59);
    let epoch1_start = unix(2020, Month::January, 8, 0, 0, 0);
    let epoch1_end = unix(2020, Month::January, 14, 23, 59, 59);
    let epoch2_start = unix(2020, Month::January, 15, 0, 0, 0);
    let one_year_later = unix(2021, Month::January, 1, 12, 0, 0);

    assert_eq!(Epoch::at(epoch0_start).index_abs(), 0);
    assert_eq!(Epoch::at(epoch0_end).index_abs(), 0);
    assert_eq!(Epoch::at(epoch1_start).index_abs(), 1);
    assert_eq!(Epoch::at(epoch1_end).index_abs(), 1);
    assert_eq!(Epoch::at(epoch2_start).index_abs(), 2);
    assert_eq!(Epoch::at(one_year_later).index_abs(), 52);
}

#[test]
fn epoch_before_origin_is_zero() {
    assert_eq!(Epoch::at(0).index_abs(), 0);
    assert_eq!(Epoch::at(i64::MIN).index_abs(), 0);
    assert_eq!(Epoch::at(i64::MAX).index_abs(), u32::MAX);
}

#[test]
fn epoch_mod8_now_restore() {
    let now = Epoch::now();
    let abbrev = now.index_mod8();
    let restored = Epoch::from_mod8(abbrev).unwrap();
    assert_eq!(now, restored);
}

#[test]
fn epoch_mod8_all_values() {
    let mut err_count = 0;
    let mut past_count = 0;
    let mut curr_count = 0;
    let mut future_count = 0;

    let now_abs = Epoch::now().index_abs();
    for mod8 in 0u8..=7 {
        match Epoch::from_mod8(mod8) {
            Ok(e) if e.index_abs() < now_abs => past_count += 1,
            Ok(e) if e.index_abs() == now_abs => curr_count += 1,
            Ok(e) if e.index_abs() > now_abs => future_count += 1,
            _ => err_count += 1,
        }
    }

    assert_eq!(err_count, 1);
    assert_eq!(past_count, 5);
    assert_eq!(curr_count, 1);
    assert_eq!(future_count, 1);
}

#[test]
fn mod8_window_from_fixed_now() {
    // Epoch 100: residue 4. Window 95..=101.
    let now = Epoch::at(unix(2021, Month::December, 1, 0, 0, 0));
    assert_eq!(now.index_abs(), 100);
    let expected = [(96, 0), (97, 1), (98, 2), (99, 3), (100, 4), (101, 5), (95, 7)];
    for (abs, m) in expected {
        let e = Epoch::from_mod8_at(m, &now).unwrap();
        assert_eq!(e.index_abs(), abs);
        assert_eq!(e.index_mod8(), m);
        assert_eq!(e.age_at(&now), 100 - abs as i64);
    }
    assert_eq!(Epoch::from_mod8_at(6, &now), Err(Error::UnreadableEpoch));
    assert_eq!(Epoch::from_mod8_at(8, &now), Err(Error::UnreadableEpoch));
    assert_eq!(Epoch::from_mod8(8), Err(Error::UnreadableEpoch));
}

#[test]
fn mod8_near_origin() {
    let now = Epoch::at(unix(2020, Month::January, 15, 0, 0, 0));
    assert_eq!(now.index_abs(), 2);
    assert_eq!(Epoch::from_mod8_at(0, &now).unwrap().index_abs(), 0);
    assert_eq!(Epoch::from_mod8_at(3, &now).unwrap().index_abs(), 3);
    // Residue 4 would be epoch -4: not an epoch.
    assert_eq!(Epoch::from_mod8_at(4, &now), Err(Error::UnreadableEpoch));
}

#[test]
fn clock_reads_a_recent_epoch() {
    // 2024-01-01 is epoch 208; the clock is later than that.
    let now = Epoch::now();
    assert!(now.index_abs() >= 208);
    assert_eq!(Epoch::at(unix(2024, Month::January, 1, 0, 0, 0)).index_abs(), 208);
    assert!(now.age() == 0 || now.age() == 1);
}
