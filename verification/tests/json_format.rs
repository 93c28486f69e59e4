use txt_store::json::{parse_json_string, render_json_string, render_record, render_records};
use txt_store::numerals::parse_i32;
use txt_store::record::Record;

#[test]
fn render_record_basic() {
    let rec = Record { id: 1, txt: "hello".to_string() };
    assert_eq!(render_record(&rec), "{\"id\":1,\"txt\":\"hello\"}");
}

#[test]
fn render_record_negative_id_and_escapes() {
    let rec = Record { id: -57, txt: "a\"b\\c\nd\te\u{1}f".to_string() };
    assert_eq!(
        render_record(&rec),
        "{\"id\":-57,\"txt\":\"a\\\"b\\\\c\\nd\\te\\u0001f\"}"
    );
}

#[test]
fn render_record_short_escapes() {
    let rec = Record { id: 0, txt: "\u{8}\u{c}\r".to_string() };
    assert_eq!(render_record(&rec), "{\"id\":0,\"txt\":\"\\b\\f\\r\"}");
}

#[test]
fn render_records_empty_and_many() {
    let none: Vec<Record> = Vec::new();
    assert_eq!(render_records(&none), "[]");
    let both = vec![
        Record { id: 1, txt: "one".to_string() },
        Record { id: 2, txt: "two".to_string() },
    ];
    assert_eq!(
        render_records(&both),
        "[{\"id\":1,\"txt\":\"one\"},{\"id\":2,\"txt\":\"two\"}]"
    );
}

#[test]
fn parse_plain_string() {
    assert_eq!(parse_json_string("\"hello\""), Some("hello".to_string()));
}

#[test]
fn parse_allows_surrounding_whitespace() {
    assert_eq!(parse_json_string("  \t\"hi\"\r\n"), Some("hi".to_string()));
}

#[test]
fn parse_decodes_escapes() {
    assert_eq!(
        parse_json_string("\"a\\nb\\u0041\\\\c\\/d\\\"\""),
        Some("a\nbA\\c/d\"".to_string())
    );
}

#[test]
fn parse_decodes_surrogate_pair() {
    assert_eq!(parse_json_string("\"\\ud834\\udd1e\""), Some("\u{1D11E}".to_string()));
}

#[test]
fn parse_rejects_lone_surrogate() {
    assert_eq!(parse_json_string("\"\\ud834\""), None);
    assert_eq!(parse_json_string("\"\\udd1e\""), None);
}

#[test]
fn parse_rejects_malformed_input() {
    assert_eq!(parse_json_string(""), None);
    assert_eq!(parse_json_string("   "), None);
    assert_eq!(parse_json_string("\"abc"), None);
    assert_eq!(parse_json_string("\"a\"x"), None);
    assert_eq!(parse_json_string("123"), None);
    assert_eq!(parse_json_string("\"a\u{1}b\""), None);
    assert_eq!(parse_json_string("\"bad \\x escape\""), None);
    assert_eq!(parse_json_string("\"\\u12g4\""), None);
}

#[test]
fn json_string_round_trip() {
    let samples = [
        "",
        "plain",
        "with \"quotes\" and \\slashes\\",
        "control \u{1} \u{1f} tab\t newline\n",
        "unicode \u{1D11E} \u{e9}",
    ];
    for s in samples {
        let rendered = render_json_string(s);
        assert_eq!(parse_json_string(&rendered), Some(s.to_string()));
    }
}

#[test]
fn parse_i32_accepts_signed_decimals() {
    assert_eq!(parse_i32("0"), Some(0));
    assert_eq!(parse_i32("42"), Some(42));
    assert_eq!(parse_i32("+42"), Some(42));
    assert_eq!(parse_i32("-7"), Some(-7));
    assert_eq!(parse_i32("007"), Some(7));
    assert_eq!(parse_i32("2147483647"), Some(2147483647));
    assert_eq!(parse_i32("-2147483648"), Some(-2147483648));
    assert_eq!(parse_i32("-000002147483648"), Some(-2147483648));
}

#[test]
fn parse_i32_rejects_malformed_or_overflowing() {
    assert_eq!(parse_i32(""), None);
    assert_eq!(parse_i32("+"), None);
    assert_eq!(parse_i32("-"), None);
    assert_eq!(parse_i32("abc"), None);
    assert_eq!(parse_i32("12x"), None);
    assert_eq!(parse_i32(" 12"), None);
    assert_eq!(parse_i32("2147483648"), None);
    assert_eq!(parse_i32("-2147483649"), None);
    assert_eq!(parse_i32("99999999999999999999"), None);
}
