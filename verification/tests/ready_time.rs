use kamino::ready_time::{
    moment_is_valid, moment_seconds, read_moment, read_timestamp, ready_duration, Moment,
};

#[test]
fn time_stamps_are_read() {
    assert_eq!(read_timestamp("1970-01-01T00:00:00Z"), Some(0));
    assert_eq!(read_timestamp("1970-01-01T00:00:01Z"), Some(1));
    assert_eq!(read_timestamp("1970-01-02T00:00:00Z"), Some(86400));
    assert_eq!(read_timestamp("1970-02-01T00:00:00Z"), Some(2678400));
    assert_eq!(read_timestamp("1971-01-01T00:00:00Z"), Some(31536000));
    assert_eq!(read_timestamp("2000-02-29T12:00:00Z"), Some(951825600));
    assert_eq!(read_timestamp("2000-03-01T00:00:00Z"), Some(951868800));
    assert_eq!(read_timestamp("2021-07-04T02:56:07Z"), Some(1625367367));
    assert_eq!(read_timestamp("2038-01-19T03:14:08Z"), Some(2147483648));
    assert_eq!(read_timestamp("9999-12-31T23:59:59Z"), Some(253402300799));
}

#[test]
fn what_is_no_time_stamp_is_refused() {
    assert_eq!(read_timestamp(""), None);
    assert_eq!(read_timestamp("2021-07-04"), None);
    assert_eq!(read_timestamp("2021-07-04T02:56:07"), None);
    assert_eq!(read_timestamp("2021-07-04T02:56:07+00:00"), None);
    assert_eq!(read_timestamp("2021-07-04 02:56:07Z"), None);
    assert_eq!(read_timestamp("2021-07-04T02:56:07z"), None);
    assert_eq!(read_timestamp("2021/07/04T02:56:07Z"), None);
    assert_eq!(read_timestamp("2021-7-04T002:56:07Z"), None);
    assert_eq!(read_timestamp("202a-07-04T02:56:07Z"), None);
    assert_eq!(read_timestamp("2021-07-04T02:56:0xZ"), None);
    assert_eq!(read_timestamp("٢٠٢١-07-04T02:56:07Z"), None);
}

#[test]
fn moments_that_do_not_exist_are_refused() {
    assert_eq!(read_timestamp("1969-12-31T23:59:59Z"), None);
    assert_eq!(read_timestamp("2021-00-04T02:56:07Z"), None);
    assert_eq!(read_timestamp("2021-13-04T02:56:07Z"), None);
    assert_eq!(read_timestamp("2021-07-00T02:56:07Z"), None);
    assert_eq!(read_timestamp("2021-07-32T02:56:07Z"), None);
    assert_eq!(read_timestamp("2021-06-31T02:56:07Z"), None);
    assert_eq!(read_timestamp("2021-02-29T02:56:07Z"), None);
    assert_eq!(read_timestamp("1900-02-29T02:56:07Z"), None);
    assert_eq!(read_timestamp("2100-02-29T02:56:07Z"), None);
    assert_eq!(read_timestamp("2021-07-04T24:00:00Z"), None);
    assert_eq!(read_timestamp("2021-07-04T02:60:07Z"), None);
    assert_eq!(read_timestamp("2021-07-04T02:56:60Z"), None);
    assert!(read_timestamp("2024-02-29T00:00:00Z").is_some());
    assert!(read_timestamp("2000-02-29T00:00:00Z").is_some());
}

#[test]
fn a_moment_is_read_field_by_field() {
    let moment = read_moment("2021-07-04T02:56:07Z").unwrap();
    assert_eq!(moment.year, 2021);
    assert_eq!(moment.month, 7);
    assert_eq!(moment.day, 4);
    assert_eq!(moment.hour, 2);
    assert_eq!(moment.minute, 56);
    assert_eq!(moment.second, 7);
    assert!(moment_is_valid(&moment));
    assert_eq!(moment_seconds(&moment), 1625367367);
    let never = read_moment("2021-02-30T00:00:00Z").unwrap();
    assert!(!moment_is_valid(&never));
    let early = Moment { year: 1969, month: 1, day: 1, hour: 0, minute: 0, second: 0 };
    assert!(!moment_is_valid(&early));
}

#[test]
fn a_node_is_ready_for_the_time_since_the_last_change() {
    assert_eq!(ready_duration(true, 1625367367, 1625367307), Some(60));
    assert_eq!(ready_duration(true, 100, 100), Some(0));
    assert_eq!(ready_duration(false, 1625367367, 1625367307), None);
    assert_eq!(ready_duration(true, 99, 100), None);
    assert_eq!(ready_duration(true, u64::MAX, 0), Some(u64::MAX));
}
