use header42::datetime::LocalTime;
use header42::delimiters::get_delimiters;
use header42::fields::{get_field_value, pad, set_field_value};
use header42::header::{
    get_header_info, header_info_at, header_is_readable, make_header_info, render_header, HeaderInfo,
};
use header42::lines::{apply_delimiters, extract_header};
use header42::template::{find_field, GENERIC_TEMPLATE};

fn at(year: i32, month: u32, day: u32, hour: u32, minute: u32, second: u32) -> LocalTime {
    LocalTime { year, month, day, hour, minute, second, nanosecond: 0 }
}

fn c_header() -> String {
    let lines = [
        "/* ************************************************************************** */",
        "/*                                                                            */",
        "/*                                                        :::      ::::::::   */",
        "/*   hello.c                                            :+:      :+:    :+:   */",
        "/*                                                    +:+ +:+         +:+     */",
        "/*   By: jdoe <jdoe@student.42.fr>                  +#+  +:+       +#+        */",
        "/*                                                +#+#+#+#+#+   +#+           */",
        "/*   Created: 2024/01/02 03:04:05 by jdoe              #+#    #+#             */",
        "/*   Updated: 2024/06/07 08:09:10 by jdoe             ###   ########.fr       */",
        "/*                                                                            */",
        "/* ************************************************************************** */",
    ];
    let mut s = String::new();
    for l in lines.iter() {
        s.push_str(l);
        s.push('\n');
    }
    s.push('\n');
    s
}

fn jdoe_info() -> HeaderInfo {
    HeaderInfo {
        filename: "hello.c".to_string(),
        author: "jdoe <jdoe@student.42.fr>".to_string(),
        created_by: "jdoe".to_string(),
        created_at: at(2024, 1, 2, 3, 4, 5),
        updated_by: "jdoe".to_string(),
        updated_at: at(2024, 6, 7, 8, 9, 10),
    }
}

#[test]
fn template_has_eleven_lines_of_eighty() {
    assert_eq!(GENERIC_TEMPLATE.len(), 892);
    let lines: Vec<&str> = GENERIC_TEMPLATE.lines().collect();
    assert_eq!(lines.len(), 12);
    for l in &lines[..11] {
        assert_eq!(l.len(), 80);
    }
    assert_eq!(lines[11], "");
}

#[test]
fn field_positions() {
    assert_eq!(find_field("FILENAME"), (248, 43));
    assert_eq!(find_field("AUTHOR"), (414, 39));
    assert_eq!(find_field("CREATEDAT"), (581, 19));
    assert_eq!(find_field("CREATEDBY"), (604, 11));
    assert_eq!(find_field("UPDATEDAT"), (662, 19));
    assert_eq!(find_field("UPDATEDBY"), (685, 11));
}

#[test]
fn pad_fills_with_spaces() {
    assert_eq!(pad("abc", 6), "abc   ");
    assert_eq!(pad("", 3), "   ");
}

#[test]
fn pad_cuts_at_the_width() {
    assert_eq!(pad("abcdef", 3), "abc");
    assert_eq!(pad("abc", 3), "abc");
}

#[test]
fn pad_keeps_whole_characters() {
    // 'é' takes two bytes: it does not fit after 'h' in a width of 2.
    assert_eq!(pad("héllo", 2), "h ");
    assert_eq!(pad("héllo", 3), "hé");
    assert_eq!(pad("héllo", 3).len(), 3);
}

#[test]
fn template_field_text() {
    assert_eq!(get_field_value(GENERIC_TEMPLATE, "FILENAME"), "$FILENAME__________________________________");
    assert_eq!(get_field_value(GENERIC_TEMPLATE, "CREATEDBY"), "$CREATEDBY_");
}

#[test]
fn field_reads_back_what_was_written() {
    let h = set_field_value(GENERIC_TEMPLATE, "AUTHOR", "bob <bob@example.org>");
    assert_eq!(get_field_value(&h, "AUTHOR"), "bob <bob@example.org>");
    assert_eq!(h.len(), GENERIC_TEMPLATE.len());
}

#[test]
fn field_write_keeps_other_fields() {
    let h = set_field_value(GENERIC_TEMPLATE, "CREATEDBY", "alice");
    assert_eq!(get_field_value(&h, "UPDATEDBY"), "$UPDATEDBY_");
    assert_eq!(get_field_value(&h, "CREATEDAT"), "$CREATEDAT_________");
    assert_eq!(get_field_value(&h, "CREATEDBY"), "alice");
}

#[test]
fn long_value_is_cut_to_the_field() {
    let h = set_field_value(GENERIC_TEMPLATE, "CREATEDBY", "averyveryverylonglogin");
    assert_eq!(get_field_value(&h, "CREATEDBY"), "averyveryve");
}

#[test]
fn short_text_has_empty_fields() {
    assert_eq!(get_field_value("short", "FILENAME"), "");
}

#[test]
fn delimiters_frame_each_line() {
    let t = apply_delimiters(GENERIC_TEMPLATE, "# ", " #");
    let lines: Vec<&str> = t.lines().collect();
    assert_eq!(lines.len(), 12);
    assert_eq!(lines[0], format!("# {} #", "*".repeat(76)));
    assert_eq!(lines[1], format!("#{}#", " ".repeat(78)));
    assert_eq!(lines[11], "");
    for l in &lines[..11] {
        assert_eq!(l.len(), 80);
    }
    assert!(t.ends_with("\n\n"));
}

#[test]
fn short_lines_are_kept_as_they_are() {
    assert_eq!(apply_delimiters("ab\ncdef\n", "/* ", " */"), "ab\ncdef\n");
    assert_eq!(apply_delimiters("abcdefgh", "/* ", " */"), "/* de */\n");
}

#[test]
fn crlf_lines_lose_their_carriage_return() {
    assert_eq!(apply_delimiters("xxxxxx\r\nyy", "# ", " #"), "# xx #\nyy\n");
}

#[test]
fn header_of_ten_lines_of_eighty() {
    let line = "x".repeat(80);
    let mut text = String::new();
    for _ in 0..10 {
        text.push_str(&line);
        text.push('\n');
    }
    let expected = text.clone();
    text.push_str("int main(void) {}\n");
    assert_eq!(extract_header(&text), Some(expected));
}

#[test]
fn no_header_in_short_text() {
    assert_eq!(extract_header("int main(void) {}\n"), None);
    assert_eq!(extract_header(""), None);
}

#[test]
fn no_header_when_a_line_is_not_eighty_wide() {
    let line = "x".repeat(80);
    let mut text = String::new();
    for i in 0..10 {
        if i == 4 {
            text.push_str(&"x".repeat(79));
        } else {
            text.push_str(&line);
        }
        text.push('\n');
    }
    assert_eq!(extract_header(&text), None);
}

#[test]
fn header_lines_may_end_in_crlf() {
    let line = "y".repeat(80);
    let mut text = String::new();
    for _ in 0..10 {
        text.push_str(&line);
        text.push_str("\r\n");
    }
    let mut expected = String::new();
    for _ in 0..10 {
        expected.push_str(&line);
        expected.push('\n');
    }
    assert_eq!(extract_header(&text), Some(expected));
}

#[test]
fn render_c_header() {
    let h = render_header("c", "hello.c", &jdoe_info());
    assert_eq!(h, c_header());
}

#[test]
fn render_python_header_uses_hashes() {
    let h = render_header("python", "hello.c", &jdoe_info());
    let first = h.lines().next().unwrap().to_string();
    assert_eq!(first, format!("# {} #", "*".repeat(76)));
    assert!(h.contains("#    Created: 2024/01/02 03:04:05 by jdoe "));
}

#[test]
fn rendered_header_reads_back() {
    let mut text = render_header("c", "hello.c", &jdoe_info());
    text.push_str("int main(void) { return 0; }\n");
    let h = extract_header(&text).unwrap();
    assert_eq!(h.len(), 810);
    assert!(header_is_readable(&h));
    let info = get_header_info(&h);
    assert_eq!(info.filename, "hello.c");
    assert_eq!(info.author, "jdoe <jdoe@student.42.fr>");
    assert_eq!(info.created_by, "jdoe");
    assert_eq!(info.updated_by, "jdoe");
    assert_eq!(get_field_value(&h, "CREATEDAT"), "2024/01/02 03:04:05");
    assert_eq!(get_field_value(&h, "UPDATEDAT"), "2024/06/07 08:09:10");
}

#[test]
fn new_header_info_keeps_creator() {
    let old = jdoe_info();
    let now = at(2025, 2, 3, 4, 5, 6);
    let info = make_header_info("alice", "alice@example.org", "x.rs", Some(&old), now);
    assert_eq!(info.filename, "x.rs");
    assert_eq!(info.author, "alice <alice@example.org>");
    assert_eq!(info.created_by, "jdoe");
    assert_eq!(info.created_at, at(2024, 1, 2, 3, 4, 5));
    assert_eq!(info.updated_by, "alice");
    assert_eq!(info.updated_at, now);
}

#[test]
fn new_header_info_without_header() {
    let now = at(2025, 2, 3, 4, 5, 6);
    let info = make_header_info("alice", "a@b.c", "x.rs", None, now);
    assert_eq!(info.created_by, "alice");
    assert_eq!(info.created_at, now);
    assert_eq!(info.updated_at, now);
}

#[test]
fn unreadable_header_is_detected() {
    // A two-byte character across the start of the file name field.
    let mut h = String::new();
    for row in 0..10 {
        if row == 3 {
            h.push_str(&"a".repeat(4));
            h.push('é');
            h.push_str(&"a".repeat(74));
        } else {
            h.push_str(&"a".repeat(80));
        }
        h.push('\n');
    }
    assert_eq!(h.len(), 810);
    assert!(!header_is_readable(&h));
}

#[test]
fn delimiters_by_language() {
    assert_eq!(get_delimiters("rust", "main.py"), ("/* ", " */"));
    assert_eq!(get_delimiters("Python", "x"), ("# ", " #"));
    assert_eq!(get_delimiters("shell script", "x"), ("# ", " #"));
    assert_eq!(get_delimiters("haskell", "x"), ("-- ", " --"));
    assert_eq!(get_delimiters("OCaml", "x"), ("(* ", " *)"));
    assert_eq!(get_delimiters("f#", "x"), ("(* ", " *)"));
    assert_eq!(get_delimiters("latex", "x"), ("%% ", " %%"));
    assert_eq!(get_delimiters("ini", "x"), (";; ", " ;;"));
}

#[test]
fn delimiters_by_extension() {
    assert_eq!(get_delimiters("unknown", "script.py"), ("# ", " #"));
    assert_eq!(get_delimiters("", "lib.ml"), ("(* ", " *)"));
    assert_eq!(get_delimiters("", "a.cfg"), (";; ", " ;;"));
    assert_eq!(get_delimiters("", "archive.tar.lua"), ("-- ", " --"));
    assert_eq!(get_delimiters("", "doc.sty"), ("%% ", " %%"));
    assert_eq!(get_delimiters("", "x.makefile"), ("# ", " #"));
}

#[test]
fn delimiters_default_to_slashes() {
    assert_eq!(get_delimiters("", "noext"), ("/* ", " */"));
    assert_eq!(get_delimiters("", "Makefile"), ("/* ", " */"));
    assert_eq!(get_delimiters("", "x.PY"), ("/* ", " */"));
    assert_eq!(get_delimiters("brainfuck", "x.c"), ("/* ", " */"));
}

#[test]
fn language_id_is_lowered_beyond_ascii() {
    // `to_lowercase` maps the Kelvin sign to an ASCII 'k': "MA\u{212A}E" is "make".
    assert_eq!(get_delimiters("MA\u{212A}E", "x"), ("# ", " #"));
    assert_eq!(get_delimiters("LUA", "x"), ("-- ", " --"));
}

#[test]
fn header_info_dates_at_a_time() {
    let h = extract_header(&c_header()).unwrap();
    let now = at(2030, 1, 1, 12, 0, 0);
    let info = header_info_at(&h, now);
    assert_eq!(info.created_at, at(2024, 1, 2, 3, 4, 5));
    assert_eq!(info.updated_at, at(2024, 6, 7, 8, 9, 10));
    let template_top = extract_header(GENERIC_TEMPLATE).unwrap();
    let info = header_info_at(&template_top, now);
    assert_eq!(info.created_at, now);
    assert_eq!(info.created_by, "$CREATEDBY_");
}

#[test]
fn last_field_write_wins() {
    let once = set_field_value(GENERIC_TEMPLATE, "AUTHOR", "bob");
    let twice = set_field_value(&set_field_value(GENERIC_TEMPLATE, "AUTHOR", "alice"), "AUTHOR", "bob");
    assert_eq!(once, twice);
}

#[test]
fn language_ids_match_in_any_case() {
    for id in ["RUST", "Rust", "rust", "PyThOn", "HASKELL", "Ini"] {
        assert_eq!(get_delimiters(id, "x"), get_delimiters(&id.to_lowercase(), "x"));
    }
}

#[test]
fn rendered_dates_read_back_in_whole_seconds() {
    let mut info = jdoe_info();
    info.created_at = LocalTime { nanosecond: 123_456_789, ..at(2021, 7, 8, 12, 30, 45) };
    info.updated_at = LocalTime { nanosecond: 1_500_000_000, ..at(2016, 12, 31, 23, 59, 59) };
    let h = extract_header(&render_header("c", "hello.c", &info)).unwrap();
    let read = header_info_at(&h, at(2030, 1, 1, 12, 0, 0));
    assert_eq!(read.created_at, at(2021, 7, 8, 12, 30, 45));
    assert_eq!(get_field_value(&h, "UPDATEDAT"), "2016/12/31 23:59:60");
}
