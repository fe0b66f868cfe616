use bunyan_view::extras::{format_extras, indent, is_detail_text, stringify_value};
use bunyan_view::json::{json_to_indented_string, JsonValue};
use bunyan_view::level::{format_level, named_level, passes_filter, NamedLogLevel};
use bunyan_view::style::{format_from_lower, parse_format, parse_level_threshold, Format};
use bunyan_view::text::decimal_string;
use bunyan_view::time::parse_timestamp;

#[test]
fn named_level_tokens() {
    assert_eq!(format_level(10, false), "TRACE");
    assert_eq!(format_level(20, false), "DEBUG");
    assert_eq!(format_level(30, false), " INFO");
    assert_eq!(format_level(40, false), " WARN");
    assert_eq!(format_level(50, false), "ERROR");
    assert_eq!(format_level(60, false), "FATAL");
}

#[test]
fn unnamed_level_tokens() {
    assert_eq!(format_level(0, false), "LVL0");
    assert_eq!(format_level(55, false), "LVL55");
    assert_eq!(format_level(255, false), "LVL255");
    assert_eq!(format_level(31, true), "LVL31");
}

#[test]
fn colored_level_tokens() {
    assert_eq!(format_level(50, true), "\x1b[31mERROR\x1b[0m");
    assert_eq!(format_level(60, true), "\x1b[7mFATAL\x1b[0m");
}

#[test]
fn named_level_lookup_is_exact() {
    assert_eq!(named_level(30), Some(NamedLogLevel::Info));
    assert_eq!(named_level(31), None);
}

#[test]
fn filter_is_numeric_comparison() {
    assert!(passes_filter(30, 30));
    assert!(passes_filter(31, 30));
    assert!(!passes_filter(29, 30));
    assert!(passes_filter(0, 0));
}

#[test]
fn classification_boundary() {
    let fifty = "a".repeat(50);
    let fifty_one = "a".repeat(51);
    assert!(!is_detail_text(&fifty));
    assert!(is_detail_text(&fifty_one));
    assert!(is_detail_text("a\nb"));
    assert!(!is_detail_text(""));
}

#[test]
fn fifty_char_string_is_inline() {
    let fifty = "b".repeat(50);
    let out = format_extras(&vec![("k".to_string(), JsonValue::Str(fifty.clone()))], false);
    assert_eq!(out, format!(" (k={})\n", fifty));
    let fifty_one = "b".repeat(51);
    let out = format_extras(&vec![("k".to_string(), JsonValue::Str(fifty_one.clone()))], false);
    assert_eq!(out, format!("\n    k: {}\n", fifty_one));
}

#[test]
fn empty_extras_is_one_newline() {
    assert_eq!(format_extras(&vec![], false), "\n");
}

#[test]
fn bold_keys_when_colored() {
    let out = format_extras(&vec![("k".to_string(), JsonValue::UInt(1))], true);
    assert_eq!(out, " (\x1b[1mk\x1b[0m=1)\n");
}

#[test]
fn stringify_quotes_strings_with_spaces_or_empty() {
    assert_eq!(stringify_value(&JsonValue::Str("plain".to_string())), "plain");
    assert_eq!(stringify_value(&JsonValue::Str("a b".to_string())), "\"a b\"");
    assert_eq!(stringify_value(&JsonValue::Str(String::new())), "\"\"");
    assert_eq!(stringify_value(&JsonValue::Null), "null");
    assert_eq!(stringify_value(&JsonValue::Bool(false)), "false");
    assert_eq!(stringify_value(&JsonValue::NegInt(-42)), "-42");
    assert_eq!(stringify_value(&JsonValue::Float("1.5".to_string())), "1.5");
}

#[test]
fn indent_every_line() {
    assert_eq!(indent("a\nb"), "    a\n    b");
    assert_eq!(indent("a\r\nb\n"), "    a\n    b");
    assert_eq!(indent(""), "    ");
    assert_eq!(indent("a\n\n"), "    a\n    ");
}

#[test]
fn pretty_printer_shapes() {
    let v = JsonValue::Object(vec![
        ("a".to_string(), JsonValue::Array(vec![JsonValue::UInt(1), JsonValue::Null])),
        ("b".to_string(), JsonValue::Object(vec![])),
        ("c".to_string(), JsonValue::Array(vec![])),
    ]);
    assert_eq!(
        json_to_indented_string(&v, "  "),
        "{\n  \"a\": [\n    1,\n    null\n  ],\n  \"b\": {},\n  \"c\": []\n}"
    );
    assert_eq!(json_to_indented_string(&v, ""), "{\"a\":[1,null],\"b\":{},\"c\":[]}");
}

#[test]
fn format_names() {
    assert_eq!(parse_format("long"), Some(Format::Long));
    assert_eq!(parse_format("SHORT"), Some(Format::Short));
    assert_eq!(parse_format("Json"), Some(Format::Json));
    assert_eq!(parse_format("bunyan"), Some(Format::Bunyan));
    assert_eq!(parse_format("json-0"), Some(Format::Bunyan));
    assert_eq!(parse_format("json-3"), Some(Format::JsonN(3)));
    assert_eq!(parse_format("json-10"), Some(Format::JsonN(10)));
    assert_eq!(parse_format("json-255"), Some(Format::JsonN(10)));
    assert_eq!(parse_format("json-+4"), Some(Format::JsonN(4)));
    assert_eq!(parse_format("json-256"), Some(Format::JsonN(10)));
    assert_eq!(parse_format("json-99999999999999999999"), Some(Format::JsonN(10)));
    assert_eq!(parse_format("json-000"), Some(Format::Bunyan));
    assert_eq!(parse_format("json-1a"), None);
    assert_eq!(parse_format("json-"), None);
    assert_eq!(parse_format("json-x"), None);
    assert_eq!(parse_format("xml"), None);
    assert_eq!(format_from_lower("LONG"), None);
}

#[test]
fn format_from_str_reports_invalid_value() {
    assert_eq!("long".parse::<Format>().ok(), Some(Format::Long));
    let err = "nope".parse::<Format>().err().unwrap();
    assert_eq!(err.message(), "Invalid format value: 'nope'");
}

#[test]
fn decimal_rendering() {
    assert_eq!(decimal_string(0), "0");
    assert_eq!(decimal_string(18446744073709551615), "18446744073709551615");
}

#[test]
fn timestamp_parsing() {
    let t = parse_timestamp("2012-02-08T22:56:52.856789Z").unwrap();
    assert_eq!((t.year, t.month, t.day), (2012, 2, 8));
    assert_eq!((t.hour, t.minute, t.second, t.millisecond), (22, 56, 52, 856));
    assert!(parse_timestamp("not a time").is_none());
}

#[test]
fn level_threshold_names_and_numbers() {
    assert_eq!(parse_level_threshold("trace"), Some(10));
    assert_eq!(parse_level_threshold("WARN"), Some(40));
    assert_eq!(parse_level_threshold("fatal"), Some(60));
    assert_eq!(parse_level_threshold("35"), Some(35));
    assert_eq!(parse_level_threshold("300"), None);
    assert_eq!(parse_level_threshold("loud"), None);
}

#[test]
fn style_is_reapplied_after_inner_reset() {
    let out = format_extras(&vec![("a\x1b[0mb".to_string(), JsonValue::UInt(1))], true);
    assert_eq!(out, " (\x1b[1ma\x1b[0m\x1b[1mb\x1b[0m=1)\n");
}
