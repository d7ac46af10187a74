use simple_config_parser::Config;
use simple_config_parser::ConfigError;

#[test]
/// The last occurrence of a key within one load wins.
fn last_occurrence_wins() {
    let cfg = Config::new().text("a = 1\na = 2").unwrap();

    assert_eq!(cfg.get_str("a").unwrap(), "2");
}

#[test]
/// Queries differing only in letter case all reach the same entry.
fn case_insensitive_queries() {
    let cfg = Config::new().text("HELLO = world").unwrap();

    assert_eq!(cfg.get_str("hello").unwrap(), "world");
    assert_eq!(cfg.get_str("Hello").unwrap(), "world");
    assert_eq!(cfg.get_str("HELLO").unwrap(), "world");
}

#[test]
/// A trailing comment is stripped from the value.
fn inline_comment_stripped() {
    let cfg = Config::new().text("hello = world ; trailing comment").unwrap();

    assert_eq!(cfg.get_str("hello").unwrap(), "world");
}

#[test]
/// A section header produces no entry and has no effect on later keys.
fn section_header_inert() {
    let cfg = Config::new().text("[s]\nkey = v").unwrap();

    assert_eq!(cfg.data.len(), 1);
    assert_eq!(cfg.get_str("key").unwrap(), "v");
    assert!(matches!(cfg.get_str("s"), Err(ConfigError::NoItem)));
}

#[test]
/// A line without `=` fails the whole load.
fn malformed_line_rejects_load() {
    assert!(matches!(
        Config::new().text("not-a-valid-line"),
        Err(ConfigError::InvalidConfig)
    ));
    assert!(matches!(
        Config::new().text("good = 1\nnot-a-valid-line"),
        Err(ConfigError::InvalidConfig)
    ));
}

#[test]
/// A second load appends: new keys join, colliding keys are overridden.
fn successive_loads_compose() {
    let cfg = Config::new()
        .text("a = 1\nb = 2")
        .unwrap()
        .text("a = 9")
        .unwrap();

    assert_eq!(cfg.get_str("a").unwrap(), "9");
    assert_eq!(cfg.get_str("b").unwrap(), "2");
}

#[test]
/// Values convert to the requested scalar type, or fail with `ParseError`.
fn typed_retrieval() {
    let cfg = Config::new().text("flag = true\ncount = 42\npi = 3.14").unwrap();

    assert_eq!(cfg.get::<bool>("flag").unwrap(), true);
    assert_eq!(cfg.get::<i64>("count").unwrap(), 42);
    assert_eq!(cfg.get::<f64>("pi").unwrap(), 3.14);
    assert!(matches!(cfg.get::<i32>("flag"), Err(ConfigError::ParseError)));
}

#[test]
/// The canonical boolean spellings are accepted in any letter case.
fn bool_any_letter_case() {
    let cfg = Config::new().text("on = True\noff = FALSE").unwrap();

    assert_eq!(cfg.get::<bool>("on").unwrap(), true);
    assert_eq!(cfg.get::<bool>("off").unwrap(), false);
}

#[test]
/// Only the canonical spellings are booleans: there is no falsy-unless-true
/// coercion of other values.
fn non_canonical_bool_rejected() {
    let cfg = Config::new().text("flag = 1\nword = yes").unwrap();

    assert!(matches!(cfg.get::<bool>("flag"), Err(ConfigError::ParseError)));
    assert!(matches!(cfg.get::<bool>("word"), Err(ConfigError::ParseError)));
}

#[test]
/// An empty store answers every lookup with `NoItem`.
fn missing_key_on_empty_store() {
    let cfg = Config::new();

    assert!(matches!(cfg.get_str("missing"), Err(ConfigError::NoItem)));
    assert!(matches!(cfg.get::<i32>("missing"), Err(ConfigError::NoItem)));
}

#[test]
/// Excess spacing around the delimiter and at line ends changes nothing.
fn whitespace_robustness() {
    let padded = Config::new().text("   hello   =   world   ").unwrap();
    let plain = Config::new().text("hello = world").unwrap();

    assert_eq!(padded.get_str("hello").unwrap(), "world");
    assert_eq!(padded.data, plain.data);
}

#[test]
/// Parsing the same text twice yields identical entry sequences.
fn round_trip_idempotence() {
    let text = "a = 1\n[s]\nb = two words ; note\nA = 3";
    let first = Config::new().text(text).unwrap();
    let second = Config::new().text(text).unwrap();

    assert_eq!(first.data, second.data);
}

#[test]
/// Windows-style line endings do not corrupt values.
fn crlf_lines() {
    let cfg = Config::new().text("a = 1\r\nb = 2").unwrap();

    assert_eq!(cfg.get_str("a").unwrap(), "1");
    assert_eq!(cfg.get_str("b").unwrap(), "2");
}

#[test]
/// Blank lines, comment-only lines, and lone markers are skipped.
fn skipped_line_forms() {
    let cfg = Config::new().text("\n\n# note\n;\n[\nk = v\n").unwrap();

    assert_eq!(cfg.data.len(), 1);
    assert_eq!(cfg.get_str("k").unwrap(), "v");
}

#[test]
/// A comment character before any `=` leaves no delimiter, so the line is
/// rejected.
fn comment_before_delimiter_rejected() {
    assert!(matches!(
        Config::new().text("foo # bar = baz"),
        Err(ConfigError::InvalidConfig)
    ));
}

#[test]
/// More than one `=` on a line is rejected.
fn double_delimiter_rejected() {
    assert!(matches!(
        Config::new().text("a == b"),
        Err(ConfigError::InvalidConfig)
    ));
}

#[test]
/// An empty value and an empty key are both allowed.
fn empty_key_and_value() {
    let cfg = Config::new().text("x =\n= y").unwrap();

    assert_eq!(cfg.get_str("x").unwrap(), "");
    assert_eq!(cfg.get_str("").unwrap(), "y");
}

#[test]
/// Spaces inside a key are removed wherever they stand.
fn key_spaces_removed() {
    let cfg = Config::new().text("a b c = 1").unwrap();

    assert_eq!(cfg.get_str("abc").unwrap(), "1");
    assert!(matches!(cfg.get_str("a b c"), Err(ConfigError::NoItem)));
}

#[test]
/// Comment stripping is not quote-aware: a comment character inside a
/// quoted value still starts a comment and truncates the value.
fn comment_inside_quotes_truncates() {
    let cfg = Config::new().text("q = \"a # b\"").unwrap();

    assert_eq!(cfg.get_str("q").unwrap(), "\"a");
}

#[test]
/// Values keep their inner characters verbatim: no unquoting, and inner
/// spacing is preserved.
fn value_verbatim() {
    let cfg = Config::new().text("q = \"spaced  out\"").unwrap();

    assert_eq!(cfg.get_str("q").unwrap(), "\"spaced  out\"");
}
