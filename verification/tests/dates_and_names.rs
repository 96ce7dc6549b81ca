use header42::datetime::{
    format_date, parse_date, parse_date_or, parse_header_date, single_instant, LocalTime,
};
use header42::extension::server_command;
use header42::uri::filename_from_uri;

fn at(year: i32, month: u32, day: u32, hour: u32, minute: u32, second: u32) -> LocalTime {
    LocalTime { year, month, day, hour, minute, second, nanosecond: 0 }
}

#[test]
fn date_text_is_zero_padded() {
    assert_eq!(format_date(&at(2024, 3, 5, 7, 8, 9)), "2024/03/05 07:08:09");
    assert_eq!(format_date(&at(1999, 12, 31, 23, 59, 59)), "1999/12/31 23:59:59");
}

#[test]
fn date_text_of_small_years() {
    assert_eq!(format_date(&at(7, 1, 1, 0, 0, 0)), "0007/01/01 00:00:00");
}

#[test]
fn leap_second_shows_as_sixty() {
    let t = LocalTime { year: 2016, month: 12, day: 31, hour: 23, minute: 59, second: 59, nanosecond: 1_000_000_000 };
    assert_eq!(format_date(&t), "2016/12/31 23:59:60");
}

#[test]
fn header_date_parses() {
    // Midday on a date far from any daylight-saving change.
    assert_eq!(parse_header_date("  2024/03/05 12:08:09 "), Some(at(2024, 3, 5, 12, 8, 9)));
    assert_eq!(parse_date("2024/03/05 12:08:09"), at(2024, 3, 5, 12, 8, 9));
}

#[test]
fn malformed_date_does_not_parse() {
    assert_eq!(parse_header_date("not a date"), None);
    assert_eq!(parse_header_date("2024-03-05 12:08:09"), None);
    assert_eq!(parse_header_date("2024/13/05 12:08:09"), None);
    assert_eq!(parse_header_date(""), None);
}

#[test]
fn malformed_date_gives_a_valid_time() {
    let t = parse_date("$CREATEDAT_________");
    assert!(1 <= t.month && t.month <= 12);
    assert!(t.hour < 24);
}

#[test]
fn filename_is_last_path_segment() {
    assert_eq!(filename_from_uri("/home/jdoe/project/main.c"), "main.c");
    assert_eq!(filename_from_uri("main.c"), "main.c");
    assert_eq!(filename_from_uri("/home/jdoe/dir/"), "");
    assert_eq!(filename_from_uri(""), "");
}

#[test]
fn filename_is_percent_decoded() {
    assert_eq!(filename_from_uri("/tmp/my%20file.c"), "my file.c");
    assert_eq!(filename_from_uri("/tmp/a%2Fb"), "a/b");
    assert_eq!(filename_from_uri("/tmp/%41%62c"), "Abc");
}

#[test]
fn filename_bytes_decode_one_by_one() {
    // Each decoded byte becomes the character with that code.
    assert_eq!(filename_from_uri("/tmp/%C3%A9t%e9"), "\u{C3}\u{A9}t\u{E9}");
}

#[test]
fn bad_escape_keeps_percent_and_drops_two_bytes() {
    assert_eq!(filename_from_uri("/tmp/%zz.c"), "%.c");
    assert_eq!(filename_from_uri("/tmp/50%"), "50%");
    assert_eq!(filename_from_uri("/tmp/x%4"), "x%");
    assert_eq!(filename_from_uri("/tmp/%4g.c"), "%.c");
}

#[test]
fn server_binary_from_settings() {
    assert_eq!(server_command(Some("/opt/bin/my-lsp".to_string())), "/opt/bin/my-lsp");
}

#[test]
fn server_binary_default() {
    assert_eq!(server_command(None), "header-42-lsp");
}

#[test]
fn unreadable_date_gives_now() {
    let now = at(2030, 4, 5, 6, 7, 8);
    assert_eq!(parse_date_or("$CREATEDAT_________", now), now);
    assert_eq!(parse_date_or(" 2024/03/05 12:08:09", now), at(2024, 3, 5, 12, 8, 9));
}

#[test]
fn ambiguous_local_time_is_dropped() {
    let t = at(2024, 3, 31, 2, 30, 0);
    assert_eq!(single_instant(Some(t), true), Some(t));
    assert_eq!(single_instant(Some(t), false), None);
    assert_eq!(single_instant(None, true), None);
}
