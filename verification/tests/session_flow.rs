use header42::config::UserConfig;
use header42::datetime::LocalTime;
use header42::fields::get_field_value;
use header42::header::{render_header, HeaderInfo};
use header42::lines::extract_header;
use header42::session::{header_fields_readable, CommandOutcome, Identity, Session};
use header42::store::UriMap;

const URI: &str = "file:///tmp/hello.c";
const PATH: &str = "/tmp/hello.c";

fn at(year: i32, month: u32, day: u32, hour: u32, minute: u32, second: u32) -> LocalTime {
    LocalTime { year, month, day, hour, minute, second, nanosecond: 0 }
}

fn cfg(username: Option<&str>, email: Option<&str>) -> UserConfig {
    UserConfig::new(username.map(|s| s.to_string()), email.map(|s| s.to_string()))
}

fn jdoe_session() -> Session {
    let mut s = Session::new();
    s.initialize(cfg(Some("jdoe"), None), UserConfig::default(), UserConfig::default());
    s
}

fn content(s: &Session, uri: &str) -> String {
    s.document(uri).unwrap().content.clone()
}

#[test]
fn initial_identity() {
    let s = Session::new();
    let id = s.identity();
    assert_eq!(id.username, "marvin");
    assert_eq!(id.email, "");
    assert!(!id.configured);
    assert_eq!(id.email_or_default(), "marvin@student.42.fr");
}

#[test]
fn identity_from_settings_is_configured() {
    let s = jdoe_session();
    assert_eq!(s.identity().username, "jdoe");
    assert_eq!(s.identity().email, "jdoe@student.42.fr");
    assert!(s.identity().configured);
}

#[test]
fn identity_from_environment_is_not_configured() {
    let id = Identity::from_sources(UserConfig::default(), UserConfig::default(), cfg(Some("sys"), None));
    assert_eq!(id.username, "sys");
    assert!(!id.configured);
    let id = Identity::from_sources(UserConfig::default(), cfg(Some("f"), None), UserConfig::default());
    assert!(id.configured);
    let id = Identity::from_sources(cfg(None, Some("m@x")), UserConfig::default(), UserConfig::default());
    assert!(!id.configured);
}

#[test]
fn empty_email_falls_back_to_default() {
    let id = Identity::from_sources(cfg(Some("a"), Some("")), UserConfig::default(), UserConfig::default());
    assert_eq!(id.email, "");
    assert_eq!(id.email_or_default(), "a@student.42.fr");
}

#[test]
fn setup_guide_for_unconfigured_user() {
    let id = Identity::initial();
    let m = id.setup_guide("/home/a/.config/42header/config.toml").unwrap();
    let expected = "42 Header: Using system username. To set your 42 login, create /home/a/.config/42header/config.toml:\n\nusername = \"YOUR_LOGIN\"\nemail = \"YOUR_LOGIN@student.42.fr\"\n\nOr add to Zed settings (Cmd+,):\n\n\"lsp\": { \"header-42-lsp\": { \"initialization_options\": { \"username\": \"YOUR_LOGIN\", \"email\": \"YOUR_LOGIN@student.42.fr\" } } }";
    assert_eq!(m, expected);
}

#[test]
fn no_setup_guide_for_configured_user() {
    let s = jdoe_session();
    assert_eq!(s.identity().setup_guide("/x"), None);
}

#[test]
fn initialized_message_names_user() {
    let s = jdoe_session();
    assert_eq!(s.identity().initialized_message(), "42 Header LSP initialized (user: jdoe)");
}

#[test]
fn open_change_close() {
    let mut s = Session::new();
    assert!(s.document(URI).is_none());
    s.open(URI, "a".to_string(), "c".to_string());
    s.open("file:///other", "b".to_string(), "rust".to_string());
    assert_eq!(content(&s, URI), "a");
    s.change(URI, vec!["x".to_string(), "y".to_string()]);
    assert_eq!(content(&s, URI), "y");
    assert_eq!(s.document(URI).unwrap().language_id, "c");
    s.change(URI, Vec::new());
    assert_eq!(content(&s, URI), "y");
    s.change("file:///unknown", vec!["z".to_string()]);
    assert!(s.document("file:///unknown").is_none());
    s.close(URI);
    assert!(s.document(URI).is_none());
    assert_eq!(content(&s, "file:///other"), "b");
}

#[test]
fn reopening_replaces_document() {
    let mut s = Session::new();
    s.open(URI, "a".to_string(), "c".to_string());
    s.open(URI, "b".to_string(), "python".to_string());
    assert_eq!(content(&s, URI), "b");
    assert_eq!(s.document(URI).unwrap().language_id, "python");
}

#[test]
fn insert_then_update_header() {
    let mut s = jdoe_session();
    s.open(URI, "int main(void);\n".to_string(), "c".to_string());
    let t1 = at(2024, 1, 2, 12, 4, 5);
    let a = s.code_action(URI, PATH, t1).unwrap();
    assert_eq!(a.title, "Insert 42 Header");
    assert_eq!(a.edit.end_line, 0);
    let expected = render_header(
        "c",
        "hello.c",
        &HeaderInfo {
            filename: "hello.c".to_string(),
            author: "jdoe <jdoe@student.42.fr>".to_string(),
            created_by: "jdoe".to_string(),
            created_at: t1,
            updated_by: "jdoe".to_string(),
            updated_at: t1,
        },
    );
    assert_eq!(a.edit.new_text, expected);
    let text = format!("{}int main(void);\n", a.edit.new_text);
    s.change(URI, vec![text]);
    let t2 = at(2024, 6, 7, 12, 9, 10);
    let b = s.code_action(URI, PATH, t2).unwrap();
    assert_eq!(b.title, "Update 42 Header");
    assert_eq!(b.edit.end_line, 12);
    let h = extract_header(&b.edit.new_text).unwrap();
    assert_eq!(get_field_value(&h, "CREATEDAT"), "2024/01/02 12:04:05");
    assert_eq!(get_field_value(&h, "UPDATEDAT"), "2024/06/07 12:09:10");
    assert_eq!(get_field_value(&h, "CREATEDBY"), "jdoe");
}

#[test]
fn update_keeps_creator_of_another_user() {
    let mut s = jdoe_session();
    let mut other = Session::new();
    other.initialize(cfg(Some("alice"), Some("alice@x.org")), UserConfig::default(), UserConfig::default());
    other.open(URI, "\n".to_string(), "c".to_string());
    let a = other.code_action(URI, PATH, at(2023, 5, 5, 12, 0, 0)).unwrap();
    s.open(URI, format!("{}\n", a.edit.new_text), "c".to_string());
    let e = s.save_edit(URI, PATH, None, at(2024, 1, 1, 12, 0, 0), 10).unwrap();
    let h = extract_header(&e).unwrap();
    assert_eq!(get_field_value(&h, "CREATEDBY"), "alice");
    assert_eq!(get_field_value(&h, "UPDATEDBY"), "jdoe");
    assert_eq!(get_field_value(&h, "AUTHOR"), "jdoe <jdoe@student.42.fr>");
    assert_eq!(get_field_value(&h, "CREATEDAT"), "2023/05/05 12:00:00");
}

#[test]
fn save_without_header_does_nothing() {
    let mut s = jdoe_session();
    s.open(URI, "int x;\n".to_string(), "c".to_string());
    assert_eq!(s.save_edit(URI, PATH, None, at(2024, 1, 1, 12, 0, 0), 0), None);
}

#[test]
fn save_of_unknown_document_does_nothing() {
    let s = jdoe_session();
    let header = {
        let mut t = Session::new();
        t.open(URI, String::new(), "c".to_string());
        t.code_action(URI, PATH, at(2024, 1, 1, 12, 0, 0)).unwrap().edit.new_text
    };
    assert_eq!(s.save_edit(URI, PATH, Some(header), at(2024, 1, 1, 12, 0, 0), 0), None);
}

#[test]
fn saved_text_counts_over_stored_content() {
    let mut s = jdoe_session();
    s.open(URI, "no header\n".to_string(), "c".to_string());
    let header = s.code_action(URI, PATH, at(2024, 1, 1, 12, 0, 0)).unwrap().edit.new_text;
    let e = s.save_edit(URI, PATH, Some(header), at(2024, 2, 1, 12, 0, 0), 0);
    assert!(e.is_some());
    assert_eq!(s.save_edit(URI, PATH, Some("no header".to_string()), at(2024, 2, 1, 12, 0, 0), 0), None);
}

#[test]
fn quiet_period_after_rewrite() {
    let mut s = jdoe_session();
    s.open(URI, String::new(), "c".to_string());
    let header = s.code_action(URI, PATH, at(2024, 1, 1, 12, 0, 0)).unwrap().edit.new_text;
    s.change(URI, vec![header]);
    let now = at(2024, 1, 1, 12, 0, 1);
    assert!(s.save_edit(URI, PATH, None, now, 5_000_000_000).is_some());
    s.record_update(URI, 5_000_000_000);
    assert_eq!(s.last_update(URI), Some(5_000_000_000));
    assert!(s.recently_updated(URI, 6_999_999_999));
    assert_eq!(s.save_edit(URI, PATH, None, now, 6_999_999_999), None);
    assert!(!s.recently_updated(URI, 7_000_000_000));
    assert!(s.save_edit(URI, PATH, None, now, 7_000_000_000).is_some());
    assert!(!s.recently_updated("file:///other", 5_000_000_000));
}

#[test]
fn code_action_needs_open_document() {
    let s = jdoe_session();
    assert!(s.code_action(URI, PATH, at(2024, 1, 1, 12, 0, 0)).is_none());
}

#[test]
fn header_command() {
    let mut s = jdoe_session();
    let now = at(2024, 1, 1, 12, 0, 0);
    let arg = Some(URI.to_string());
    assert!(matches!(s.execute_command("42header.insertHeader", arg.clone(), now), CommandOutcome::Nothing));
    s.open(URI, "x\n".to_string(), "python".to_string());
    assert!(matches!(s.execute_command("other.command", arg.clone(), now), CommandOutcome::Nothing));
    assert!(matches!(s.execute_command("42header.insertHeader", None, now), CommandOutcome::Nothing));
    assert!(matches!(
        s.execute_command("42header.insertHeader", Some("not a uri".to_string()), now),
        CommandOutcome::Nothing
    ));
    match s.execute_command("42header.insertHeader", arg, now) {
        CommandOutcome::Edit { uri, key, edit } => {
            assert_eq!(uri.as_str(), URI);
            assert_eq!(key, URI);
            assert_eq!(edit.end_line, 0);
            assert!(edit.new_text.starts_with("# ***"));
            let a = s.code_action(URI, PATH, now).unwrap();
            assert_eq!(a.edit.new_text, edit.new_text);
        }
        _ => panic!("expected an edit"),
    }
}

#[test]
fn header_command_argument_is_parsed_as_uri() {
    let mut s = jdoe_session();
    let now = at(2024, 1, 1, 12, 0, 0);
    s.open("file:///tmp/my%20file.c", String::new(), "c".to_string());
    // The scheme is normalized by parsing, so this names the open document.
    match s.execute_command("42header.insertHeader", Some("FILE:///tmp/my%20file.c".to_string()), now) {
        CommandOutcome::Edit { key, edit, .. } => {
            assert_eq!(key, "file:///tmp/my%20file.c");
            let h = extract_header(&edit.new_text).unwrap();
            assert_eq!(get_field_value(&h, "FILENAME"), "my file.c");
        }
        _ => panic!("expected an edit"),
    }
}

#[test]
fn header_command_on_unreadable_header() {
    let mut s = jdoe_session();
    let mut bad = String::new();
    for row in 0..10 {
        if row == 7 {
            bad.push_str(&"a".repeat(36));
            bad.push('é');
            bad.push_str(&"a".repeat(42));
        } else {
            bad.push_str(&"a".repeat(80));
        }
        bad.push('\n');
    }
    s.open(URI, bad, "c".to_string());
    assert!(matches!(
        s.execute_command("42header.insertHeader", Some(URI.to_string()), at(2024, 1, 1, 12, 0, 0)),
        CommandOutcome::UnreadableHeader
    ));
}

#[test]
fn filename_in_header_is_decoded() {
    let mut s = jdoe_session();
    let uri = "file:///tmp/my%20file.c";
    s.open(uri, String::new(), "c".to_string());
    let a = s.code_action(uri, "/tmp/my%20file.c", at(2024, 1, 1, 12, 0, 0)).unwrap();
    let h = extract_header(&a.edit.new_text).unwrap();
    assert_eq!(get_field_value(&h, "FILENAME"), "my file.c");
}

#[test]
fn readability_checks() {
    assert!(header_fields_readable("no header"));
    let mut bad = String::new();
    for row in 0..10 {
        if row == 7 {
            bad.push_str(&"a".repeat(36));
            bad.push('é');
            bad.push_str(&"a".repeat(42));
        } else {
            bad.push_str(&"a".repeat(80));
        }
        bad.push('\n');
    }
    assert!(!header_fields_readable(&bad));
    let mut s = Session::new();
    s.open(URI, bad.clone(), "c".to_string());
    assert!(!s.document_is_readable(URI));
    assert!(!s.save_is_readable(URI, &None));
    assert!(s.save_is_readable(URI, &Some("fine".to_string())));
    assert!(s.document_is_readable("file:///not-open"));
}

#[test]
fn uri_map_operations() {
    let mut m: UriMap<u32> = UriMap::new();
    assert!(!m.contains("a"));
    m.insert("a", 1);
    m.insert("b", 2);
    m.insert("a", 3);
    assert_eq!(m.get("a"), Some(&3));
    assert_eq!(m.get("b"), Some(&2));
    m.remove("a");
    assert_eq!(m.get("a"), None);
    assert_eq!(m.get("b"), Some(&2));
    m.remove("zzz");
    assert!(m.contains("b"));
}
