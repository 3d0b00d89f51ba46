use whisper_tool::time_utils::{
    format_time_for_filename, seconds_to_time_str, time_str_to_seconds, TimeFormatError,
};

fn seconds(ms: u64) -> f64 {
    ms as f64 / 1000.0
}

#[test]
fn test_time_parsing() {
    assert_eq!(seconds(time_str_to_seconds("00:00:10,500").unwrap()), 10.5);
    assert_eq!(seconds(time_str_to_seconds("01:01:01,100").unwrap()), 3661.1);
    assert_eq!(seconds(time_str_to_seconds("0:00:10").unwrap()), 10.0);
}

#[test]
fn test_time_formatting() {
    assert_eq!(seconds_to_time_str(10_500), "00:00:10,500");
}

#[test]
fn formatting_pads_every_field() {
    assert_eq!(seconds_to_time_str(0), "00:00:00,000");
    assert_eq!(seconds_to_time_str(3_661_001), "01:01:01,001");
    assert_eq!(seconds_to_time_str(59_999), "00:00:59,999");
}

#[test]
fn formatting_widens_large_hours() {
    assert_eq!(seconds_to_time_str(360_000_000), "100:00:00,000");
}

#[test]
fn format_then_parse_round_trips() {
    let text = seconds_to_time_str(10_500);
    assert_eq!(text, "00:00:10,500");
    assert_eq!(time_str_to_seconds(&text), Ok(10_500));
    for ms in [0u64, 1, 999, 1_000, 59_999, 3_599_999, 86_400_123, 123_456_789_012] {
        let text = seconds_to_time_str(ms);
        assert_eq!(time_str_to_seconds(&text), Ok(ms));
    }
}

#[test]
fn parsing_accepts_dot_and_short_fractions() {
    assert_eq!(time_str_to_seconds("1:2:3.5"), Ok(3_723_500));
    assert_eq!(time_str_to_seconds("0:00:10,12"), Ok(10_120));
    assert_eq!(time_str_to_seconds("0:00:10.012"), Ok(10_012));
}

#[test]
fn parsing_ignores_surrounding_whitespace() {
    assert_eq!(time_str_to_seconds("  00:01:00,000\n"), Ok(60_000));
    assert_eq!(time_str_to_seconds("\u{3000}0:00:01"), Ok(1_000));
}

#[test]
fn blank_text_reads_as_zero() {
    assert_eq!(time_str_to_seconds(""), Ok(0));
    assert_eq!(time_str_to_seconds("   \t"), Ok(0));
}

#[test]
fn parsing_rejects_malformed_text() {
    for bad in [
        "abc", "10", "1:2", "1:234:00", "1:00:00,", "1:00:00,1234", "1:00:00;5", ":00:00",
        "1:00:00,5x", "1::00",
    ] {
        assert_eq!(time_str_to_seconds(bad), Err(TimeFormatError::InvalidFormat), "{}", bad);
    }
}

#[test]
fn parsing_rejects_hours_beyond_u32() {
    assert_eq!(time_str_to_seconds("4294967296:00:00"), Err(TimeFormatError::HoursOutOfRange));
    assert_eq!(time_str_to_seconds("4294967295:00:00"), Ok(4_294_967_295 * 3_600_000));
}

#[test]
fn filename_stamp_cuts_fraction_and_replaces_colons() {
    assert_eq!(format_time_for_filename("01:02:03,500"), "01_02_03");
    assert_eq!(format_time_for_filename("01:02:03.500"), "01_02_03");
    assert_eq!(format_time_for_filename("12:34"), "12_34");
    assert_eq!(format_time_for_filename(""), "00_00_00");
}
