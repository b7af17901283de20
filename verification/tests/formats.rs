use std::time::{SystemTime, UNIX_EPOCH};
use timelapse::format::{
    civil_time, current_timestamp_ms, format_absolute_time, format_duration, format_relative_time, format_relative_to,
    format_size, timestamp_of_reading, CivilTime,
};

#[test]
fn test_format_size() {
    assert_eq!(format_size(0), "0 B");
    assert_eq!(format_size(512), "512 B");
    assert_eq!(format_size(1024), "1.00 KB");
    assert_eq!(format_size(1024 * 1024), "1.00 MB");
    assert_eq!(format_size(1024 * 1024 * 1024), "1.00 GB");
    assert_eq!(format_size(1536), "1.50 KB");
}

#[test]
fn test_format_relative_time() {
    let now_ms = SystemTime::now().duration_since(UNIX_EPOCH).unwrap().as_millis() as u64;

    let result = format_relative_time(now_ms);
    assert!(result.contains("seconds ago") || result == "0 seconds ago");

    let one_hour_ago = now_ms - (3600 * 1000);
    let result = format_relative_time(one_hour_ago);
    assert!(result.contains("hour"));

    let one_day_ago = now_ms - (86400 * 1000);
    let result = format_relative_time(one_day_ago);
    assert!(result.contains("day"));
}

#[test]
fn sizes_round_like_floating_point() {
    let mut n: u64 = 1000;
    for _ in 0..2000 {
        n = n.wrapping_mul(6364136223846793005).wrapping_add(1442695040888963407);
        for shift in [0u32, 14, 24, 34, 44] {
            let bytes = n >> shift;
            let expected = if bytes >= 1 << 30 {
                format!("{:.2} GB", bytes as f64 / (1u64 << 30) as f64)
            } else if bytes >= 1 << 20 {
                format!("{:.2} MB", bytes as f64 / (1u64 << 20) as f64)
            } else if bytes >= 1 << 10 {
                format!("{:.2} KB", bytes as f64 / 1024.0)
            } else {
                format!("{} B", bytes)
            };
            assert_eq!(format_size(bytes), expected);
        }
    }
}

#[test]
fn relative_times_count_whole_units() {
    let now = Some(10_000_000_000u64);
    assert_eq!(format_relative_to(now, 10_000_000_000), "0 seconds ago");
    assert_eq!(format_relative_to(now, 10_000_000_000 - 59_999), "59 seconds ago");
    assert_eq!(format_relative_to(now, 10_000_000_000 - 60_000), "1 minutes ago");
    assert_eq!(format_relative_to(now, 10_000_000_000 - 7_200_000), "2 hours ago");
    assert_eq!(format_relative_to(now, 10_000_000_000 - 86_400_000 * 6), "6 days ago");
    assert_eq!(format_relative_to(now, 10_000_000_000 - 86_400_000 * 15), "2 weeks ago");
    assert_eq!(format_relative_to(now, 10_000_000_001), "in the future");
    assert_eq!(format_relative_to(None, 0), "in the future");
}

#[test]
fn dates_follow_the_calendar() {
    assert_eq!(format_absolute_time(0), "1970-01-01 00:00:00");
    assert_eq!(format_absolute_time(951_782_400_000), "2000-02-29 00:00:00");
    assert_eq!(format_absolute_time(1_704_292_200_999), "2024-01-03 14:30:00");
    assert_eq!(format_absolute_time(4_107_542_399_000), "2100-02-28 23:59:59");
    assert_eq!(format_absolute_time(4_107_542_400_000), "2100-03-01 00:00:00");
    assert_eq!(
        civil_time(951_868_799),
        CivilTime { year: 2000, month: 2, day: 29, hour: 23, minute: 59, second: 59 }
    );
}

#[test]
fn every_day_follows_the_day_before() {
    let lengths = [31u64, 28, 31, 30, 31, 30, 31, 31, 30, 31, 30, 31];
    let (mut y, mut m, mut d) = (1970u64, 1u64, 1u64);
    for day in 0..200_000u64 {
        let t = civil_time(day * 86400 + 3661);
        assert_eq!((t.year, t.month, t.day, t.hour, t.minute, t.second), (y, m, d, 1, 1, 1));
        let leap = y % 4 == 0 && (y % 100 != 0 || y % 400 == 0);
        let last = lengths[(m - 1) as usize] + if m == 2 && leap { 1 } else { 0 };
        if d < last {
            d += 1;
        } else if m < 12 {
            d = 1;
            m += 1;
        } else {
            d = 1;
            m = 1;
            y += 1;
        }
    }
}

#[test]
fn durations_name_their_largest_unit() {
    assert_eq!(format_duration(4), "just now");
    assert_eq!(format_duration(5), "5 seconds");
    assert_eq!(format_duration(60), "1 minute");
    assert_eq!(format_duration(3599), "59 minutes");
    assert_eq!(format_duration(3600), "1 hour");
    assert_eq!(format_duration(86400 * 2), "2 days");
    assert_eq!(format_duration(86400 * 7), "1 week");
    assert_eq!(format_duration(86400 * 30), "1 month");
    assert_eq!(format_duration(86400 * 365 * 3), "3 years");
}

#[test]
fn the_clock_is_read_in_milliseconds() {
    let before = SystemTime::now().duration_since(UNIX_EPOCH).unwrap().as_millis() as u64;
    let read = current_timestamp_ms();
    let after = SystemTime::now().duration_since(UNIX_EPOCH).unwrap().as_millis() as u64;
    assert!(before <= read && read <= after);
    assert_eq!(timestamp_of_reading(Some(1704067200000)), 1704067200000);
    assert_eq!(timestamp_of_reading(None), 0);
}

#[test]
fn later_times_are_later_texts() {
    let times = [0, 999, 1000, 86_399_999, 86_400_000, 951_782_400_000, 1_704_067_200_000, 253_402_300_799_999];
    for a in times {
        for b in times {
            let (x, y) = (format_absolute_time(a), format_absolute_time(b));
            assert_eq!((x.len(), y.len()), (19, 19));
            assert_eq!(x < y, a / 1000 < b / 1000);
            assert_eq!(x == y, a / 1000 == b / 1000);
        }
    }
}
