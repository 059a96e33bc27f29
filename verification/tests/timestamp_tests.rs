use picmrg::error::MergeError;
use picmrg::timestamp::derive_output_name;
use picmrg::timestamp::find_latest_creation_date;
use picmrg::timestamp::preferred_time;
use picmrg::timestamp::FileTimes;
use picmrg::timestamp::LocalDateTime;

fn moment(secs: i64, nanos: u32, utc_offset: i32) -> LocalDateTime {
    LocalDateTime { secs, nanos, utc_offset }
}

/// The times of files of which the one time that counts is known, or none.
fn known(times: Vec<Option<LocalDateTime>>) -> Vec<FileTimes> {
    times.into_iter().map(|time| FileTimes { created: time, modified: None }).collect()
}

#[test]
fn the_time_of_creation_comes_before_that_of_the_last_change() {
    let early = moment(10, 0, 0);
    let late = moment(20, 0, 0);
    assert_eq!(preferred_time(Some(early), Some(late)), Some(early));
    assert_eq!(preferred_time(Some(late), Some(early)), Some(late));
    assert_eq!(preferred_time(None, Some(late)), Some(late));
    assert_eq!(preferred_time(Some(early), None), Some(early));
    assert_eq!(preferred_time(None, None), None);
}

#[test]
fn latest_goes_by_the_time_that_counts_for_each_file() {
    let times = vec![
        // Created at 100; that it was changed at 900 does not count.
        FileTimes { created: Some(moment(100, 0, 0)), modified: Some(moment(900, 0, 0)) },
        // No time of creation: the last change at 500 counts.
        FileTimes { created: None, modified: Some(moment(500, 0, 0)) },
        FileTimes { created: None, modified: None },
        FileTimes { created: Some(moment(300, 0, 0)), modified: None },
    ];
    assert_eq!(find_latest_creation_date(&times), Ok(moment(500, 0, 0)));
}

#[test]
fn latest_of_no_time_is_unavailable() {
    assert_eq!(find_latest_creation_date(&Vec::new()), Err(MergeError::TimestampUnavailable));
    assert_eq!(
        find_latest_creation_date(&known(vec![None, None, None])),
        Err(MergeError::TimestampUnavailable)
    );
}

#[test]
fn latest_is_the_greatest_of_the_times() {
    let times = vec![
        Some(moment(100, 5, 0)),
        None,
        Some(moment(300, 1, 0)),
        Some(moment(300, 2, 0)),
        Some(moment(200, 999_999_999, 0)),
        None,
        Some(moment(-5, 0, 0)),
    ];
    assert_eq!(find_latest_creation_date(&known(times)), Ok(moment(300, 2, 0)));
    assert_eq!(find_latest_creation_date(&known(vec![Some(moment(-7, 0, 0))])), Ok(moment(-7, 0, 0)));
    assert_eq!(
        find_latest_creation_date(&known(vec![Some(moment(-7, 0, 0)), Some(moment(-8, 999, 0))])),
        Ok(moment(-7, 0, 0))
    );
}

#[test]
fn latest_is_the_first_of_equally_late_times() {
    // The moment counts, not the clock that shows it.
    let times = vec![Some(moment(50, 0, 3600)), Some(moment(50, 0, -3600)), Some(moment(50, 0, 0))];
    assert_eq!(find_latest_creation_date(&known(times)), Ok(moment(50, 0, 3600)));
    let times = vec![Some(moment(49, 0, 0)), Some(moment(50, 0, -3600)), Some(moment(50, 0, 0))];
    assert_eq!(find_latest_creation_date(&known(times)), Ok(moment(50, 0, -3600)));
}

#[test]
fn output_name_carries_the_date() {
    assert_eq!(derive_output_name(moment(0, 0, 0)), Ok("merged-70-01-01.png".to_string()));
    // 25 December 2023, 10:26:40 universal time
    assert_eq!(
        derive_output_name(moment(1_703_500_000, 0, 0)),
        Ok("merged-23-12-25.png".to_string())
    );
    // 29 February 2024
    assert_eq!(
        derive_output_name(moment(1_709_164_800, 123, 0)),
        Ok("merged-24-02-29.png".to_string())
    );
    // 1 January 2000
    assert_eq!(
        derive_output_name(moment(946_684_800, 0, 0)),
        Ok("merged-00-01-01.png".to_string())
    );
    // Before 1970
    assert_eq!(derive_output_name(moment(-1, 0, 0)), Ok("merged-69-12-31.png".to_string()));
}

#[test]
fn output_name_carries_the_local_date() {
    // 31 December 2023, 23:30 universal time
    let late = 1_704_065_400;
    assert_eq!(derive_output_name(moment(late, 0, 0)), Ok("merged-23-12-31.png".to_string()));
    assert_eq!(derive_output_name(moment(late, 0, 3600)), Ok("merged-24-01-01.png".to_string()));
    assert_eq!(derive_output_name(moment(late, 0, -3600)), Ok("merged-23-12-31.png".to_string()));
    // 1 March 2023, 00:30 universal time
    let early = 1_677_630_600;
    assert_eq!(derive_output_name(moment(early, 0, 0)), Ok("merged-23-03-01.png".to_string()));
    assert_eq!(derive_output_name(moment(early, 0, -1800)), Ok("merged-23-03-01.png".to_string()));
    assert_eq!(derive_output_name(moment(early, 0, -1801)), Ok("merged-23-02-28.png".to_string()));
}

#[test]
fn output_name_is_unavailable_beyond_the_calendar() {
    assert_eq!(derive_output_name(moment(i64::MAX, 0, 0)), Err(MergeError::TimestampUnavailable));
    assert_eq!(derive_output_name(moment(i64::MIN, 0, 0)), Err(MergeError::TimestampUnavailable));
    assert_eq!(derive_output_name(moment(0, 0, 86_400)), Err(MergeError::TimestampUnavailable));
    assert_eq!(derive_output_name(moment(0, 0, -86_400)), Err(MergeError::TimestampUnavailable));
    assert_eq!(derive_output_name(moment(0, 2_000_000_000, 0)), Err(MergeError::TimestampUnavailable));
}
