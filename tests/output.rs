use bunyan_view::decode::decode_record;
use bunyan_view::json::JsonValue;
use bunyan_view::process::{process_line, process_parsed};
use bunyan_view::style::{parse_format, Format};

const EXTRA_FIELD_LINE: &str = r#"{"v":0,"name":"myservice","msg":"My message","level":30,"hostname":"example.com","pid":123,"time":"2012-02-08T22:56:52.856Z","extra":"field"}"#;

fn to_value(v: &serde_json::Value) -> JsonValue {
    match v {
        serde_json::Value::Null => JsonValue::Null,
        serde_json::Value::Bool(b) => JsonValue::Bool(*b),
        serde_json::Value::Number(n) => {
            if let Some(u) = n.as_u64() {
                JsonValue::UInt(u)
            } else if let Some(i) = n.as_i64() {
                JsonValue::NegInt(i)
            } else {
                JsonValue::Float(n.to_string())
            }
        }
        serde_json::Value::String(s) => JsonValue::Str(s.clone()),
        serde_json::Value::Array(a) => JsonValue::Array(a.iter().map(to_value).collect()),
        serde_json::Value::Object(o) => {
            JsonValue::Object(o.iter().map(|(k, v)| (k.clone(), to_value(v))).collect())
        }
    }
}

fn run(input: &str, format: Format, level: u8, strict: bool) -> String {
    let mut out = String::new();
    for line in input.lines() {
        if let Some(text) = process_line(line, format, level, strict, false) {
            out.push_str(&text);
        }
    }
    out
}

fn run_named(input: &str, format: &str) -> String {
    run(input, parse_format(format).unwrap(), 10, false)
}

#[test]
fn extra_field_long() {
    assert_eq!(
        run_named(EXTRA_FIELD_LINE, "long"),
        "[2012-02-08T22:56:52.856Z]  INFO: myservice/123 on example.com: My message (extra=field)\n"
    );
}

#[test]
fn extra_field_short() {
    assert_eq!(
        run_named(EXTRA_FIELD_LINE, "short"),
        "22:56:52.856Z  INFO myservice: My message (extra=field)\n"
    );
}

#[test]
fn extra_field_json() {
    assert_eq!(
        run_named(EXTRA_FIELD_LINE, "json"),
        r#"{
  "v": 0,
  "name": "myservice",
  "msg": "My message",
  "level": 30,
  "hostname": "example.com",
  "pid": 123,
  "time": "2012-02-08T22:56:52.856Z",
  "extra": "field"
}"#
    );
}

#[test]
fn extra_field_json4() {
    assert_eq!(
        run_named(EXTRA_FIELD_LINE, "json-4"),
        r#"{
    "v": 0,
    "name": "myservice",
    "msg": "My message",
    "level": 30,
    "hostname": "example.com",
    "pid": 123,
    "time": "2012-02-08T22:56:52.856Z",
    "extra": "field"
}"#
    );
}

#[test]
fn extra_field_json_more_than_10_still_10() {
    assert_eq!(
        run_named(EXTRA_FIELD_LINE, "json-25"),
        r#"{
          "v": 0,
          "name": "myservice",
          "msg": "My message",
          "level": 30,
          "hostname": "example.com",
          "pid": 123,
          "time": "2012-02-08T22:56:52.856Z",
          "extra": "field"
}"#
    );
}

#[test]
fn extra_field_json_0() {
    assert_eq!(
        run_named(EXTRA_FIELD_LINE, "json-0"),
        r#"{"v":0,"name":"myservice","msg":"My message","level":30,"hostname":"example.com","pid":123,"time":"2012-02-08T22:56:52.856Z","extra":"field"}
"#
    );
}

#[test]
fn extra_field_bunyan() {
    assert_eq!(
        run_named(EXTRA_FIELD_LINE, "bunyan"),
        r#"{"v":0,"name":"myservice","msg":"My message","level":30,"hostname":"example.com","pid":123,"time":"2012-02-08T22:56:52.856Z","extra":"field"}
"#
    );
}

fn record_line(level: u32, second: u32, extra: &str) -> String {
    format!(
        r#"{{"v":0,"name":"myservice","msg":"My message","level":{},"hostname":"example.com","pid":123,"time":"2012-02-08T22:56:{}.856Z"{}}}"#,
        level, second, extra
    )
}

fn all_log() -> String {
    let mut lines = vec!["# levels".to_string()];
    for (level, second) in [(10, 50), (20, 51), (30, 52), (40, 53), (50, 54), (55, 55), (60, 56)] {
        lines.push(record_line(level, second, ""));
    }
    lines.push(String::new());
    lines.push("# extra fields".to_string());
    lines.push(record_line(30, 52, r#","one":"short""#));
    lines.push(record_line(30, 52, r#","two":"short with space""#));
    lines.push(record_line(30, 52, r#","three":"multi\nline""#));
    lines.push(record_line(
        30,
        52,
        r#","four":"over 50 chars long long long long long long long long long""#,
    ));
    lines.push(record_line(30, 52, r#","five":{"a":"json object"}"#));
    lines.push(record_line(30, 52, r#","six":["a","json","array"]"#));
    lines.push(String::new());
    lines.push("# bogus".to_string());
    lines.push("not a JSON line".to_string());
    lines.push(r#"{"hi": "there"}"#.to_string());
    lines.join("\n")
}

const ALL_RECORDS: &str = r#"[2012-02-08T22:56:50.856Z] TRACE: myservice/123 on example.com: My message
[2012-02-08T22:56:51.856Z] DEBUG: myservice/123 on example.com: My message
[2012-02-08T22:56:52.856Z]  INFO: myservice/123 on example.com: My message
[2012-02-08T22:56:53.856Z]  WARN: myservice/123 on example.com: My message
[2012-02-08T22:56:54.856Z] ERROR: myservice/123 on example.com: My message
[2012-02-08T22:56:55.856Z] LVL55: myservice/123 on example.com: My message
[2012-02-08T22:56:56.856Z] FATAL: myservice/123 on example.com: My message
"#;

const ALL_EXTRAS: &str = r#"[2012-02-08T22:56:52.856Z]  INFO: myservice/123 on example.com: My message (one=short)
[2012-02-08T22:56:52.856Z]  INFO: myservice/123 on example.com: My message (two="short with space")
[2012-02-08T22:56:52.856Z]  INFO: myservice/123 on example.com: My message
    three: multi
    line
[2012-02-08T22:56:52.856Z]  INFO: myservice/123 on example.com: My message
    four: over 50 chars long long long long long long long long long
[2012-02-08T22:56:52.856Z]  INFO: myservice/123 on example.com: My message
    five: {
      "a": "json object"
    }
[2012-02-08T22:56:52.856Z]  INFO: myservice/123 on example.com: My message
    six: [
      "a",
      "json",
      "array"
    ]
"#;

#[test]
fn all_log_file_non_strict() {
    let expected = format!(
        "# levels\n{}\n# extra fields\n{}\n# bogus\nnot a JSON line\n{{\"hi\": \"there\"}}\n",
        ALL_RECORDS, ALL_EXTRAS
    );
    assert_eq!(run(&all_log(), Format::Long, 10, false), expected);
}

#[test]
fn all_log_file_strict() {
    let expected = format!("{}{}", ALL_RECORDS, ALL_EXTRAS);
    assert_eq!(run(&all_log(), Format::Long, 10, true), expected);
}

#[test]
fn end_to_end_short_with_trace_threshold() {
    assert_eq!(
        run(EXTRA_FIELD_LINE, Format::Short, 10, false),
        "22:56:52.856Z  INFO myservice: My message (extra=field)\n"
    );
}

#[test]
fn end_to_end_json4_has_no_trailing_newline() {
    let out = run(EXTRA_FIELD_LINE, Format::JsonN(4), 10, false);
    assert!(out.ends_with('}'));
    assert!(out.starts_with("{\n    \"v\": 0,\n    \"name\""));
}

#[test]
fn non_json_line_passes_through_unless_strict() {
    assert_eq!(run("not a JSON line", Format::Long, 10, false), "not a JSON line\n");
    assert_eq!(run("not a JSON line", Format::Long, 10, true), "");
}

#[test]
fn missing_hostname_is_treated_as_non_json() {
    let line = r#"{"v":0,"name":"myservice","msg":"My message","level":30,"pid":123,"time":"2012-02-08T22:56:52.856Z"}"#;
    assert_eq!(run(line, Format::Long, 10, false), format!("{}\n", line));
    assert_eq!(run(line, Format::Long, 10, true), "");
}

#[test]
fn level_filter_drops_records_below_threshold() {
    assert_eq!(run(EXTRA_FIELD_LINE, Format::Short, 40, false), "");
    assert_eq!(
        run(EXTRA_FIELD_LINE, Format::Short, 30, false),
        "22:56:52.856Z  INFO myservice: My message (extra=field)\n"
    );
}

#[test]
fn level_out_of_u8_range_is_not_a_record() {
    let line = r#"{"v":0,"name":"a","msg":"m","level":300,"hostname":"h","pid":1,"time":"2012-02-08T22:56:52.856Z"}"#;
    assert_eq!(run(line, Format::Short, 0, true), "");
    assert_eq!(run(line, Format::Short, 0, false), format!("{}\n", line));
}

#[test]
fn bad_time_is_not_a_record() {
    let line = r#"{"v":0,"name":"a","msg":"m","level":30,"hostname":"h","pid":1,"time":"yesterday"}"#;
    assert_eq!(run(line, Format::Short, 0, true), "");
}

#[test]
fn time_with_offset_is_shown_in_utc() {
    let line = r#"{"v":0,"name":"a","msg":"m","level":30,"hostname":"h","pid":1,"time":"2012-02-08T23:56:52.856+01:00"}"#;
    assert_eq!(run(line, Format::Short, 0, true), "22:56:52.856Z  INFO a: m\n");
}

#[test]
fn no_extras_gives_single_newline() {
    let line = r#"{"v":0,"name":"a","msg":"m","level":30,"hostname":"h","pid":7,"time":"2012-02-08T22:56:52.000Z"}"#;
    assert_eq!(
        run(line, Format::Long, 0, true),
        "[2012-02-08T22:56:52.000Z]  INFO: a/7 on h: m\n"
    );
}

#[test]
fn inline_and_detail_fields_together() {
    let line = r#"{"v":0,"name":"a","msg":"m","level":30,"hostname":"h","pid":7,"time":"2012-02-08T22:56:52.000Z","x":1,"d1":"p\nq","y":"","d2":[1]}"#;
    assert_eq!(
        run(line, Format::Short, 0, true),
        "22:56:52.000Z  INFO a: m (x=1,y=\"\")\n    d1: p\n    q\n    --\n    d2: [\n      1\n    ]\n"
    );
}

#[test]
fn extras_keep_source_order_in_json() {
    let line = r#"{"zeta":1,"v":0,"name":"a","msg":"m","level":30,"hostname":"h","pid":7,"time":"2012-02-08T22:56:52.000Z","alpha":2}"#;
    assert_eq!(
        run(line, Format::Bunyan, 0, true),
        "{\"v\":0,\"name\":\"a\",\"msg\":\"m\",\"level\":30,\"hostname\":\"h\",\"pid\":7,\"time\":\"2012-02-08T22:56:52.000Z\",\"zeta\":1,\"alpha\":2}\n"
    );
}

#[test]
fn json_output_escapes_strings() {
    let line = r#"{"v":0,"name":"a","msg":"say \"hi\"\n\u0001","level":30,"hostname":"h","pid":7,"time":"2012-02-08T22:56:52.000Z"}"#;
    assert_eq!(
        run(line, Format::Bunyan, 0, true),
        "{\"v\":0,\"name\":\"a\",\"msg\":\"say \\\"hi\\\"\\n\\u0001\",\"level\":30,\"hostname\":\"h\",\"pid\":7,\"time\":\"2012-02-08T22:56:52.000Z\"}\n"
    );
}

#[test]
fn rendering_twice_is_identical() {
    let a = run(EXTRA_FIELD_LINE, Format::Long, 0, false);
    let b = run(EXTRA_FIELD_LINE, Format::Long, 0, false);
    assert_eq!(a, b);
}

#[test]
fn bunyan_round_trip_keeps_fields_and_extras_order() {
    let line = r#"{"v":1,"name":"svc","msg":"hello \"world\"","level":55,"hostname":"h1","pid":4294967295,"time":"2012-02-08T22:56:52.856Z","zeta":{"a":[1,-2,1.5,null,true]},"alpha":"x y"}"#;
    let encoded = run(line, Format::Bunyan, 0, true);
    assert!(encoded.ends_with('\n'));
    let reparsed: serde_json::Value = serde_json::from_str(encoded.trim_end()).unwrap();
    let rec = decode_record(to_value(&reparsed)).unwrap();
    assert_eq!(rec.version, 1);
    assert_eq!(rec.name, "svc");
    assert_eq!(rec.message, "hello \"world\"");
    assert_eq!(rec.level, 55);
    assert_eq!(rec.hostname, "h1");
    assert_eq!(rec.process_identifier, 4294967295);
    assert_eq!(rec.time.millisecond, 856);
    let keys: Vec<&str> = rec.extras.iter().map(|(k, _)| k.as_str()).collect();
    assert_eq!(keys, vec!["zeta", "alpha"]);
    assert_eq!(run(encoded.trim_end(), Format::Bunyan, 0, true), encoded);
}

#[test]
fn non_object_json_is_not_a_record() {
    assert_eq!(run("[1,2]", Format::Long, 0, false), "[1,2]\n");
    assert_eq!(run("42", Format::Long, 0, true), "");
}

#[test]
fn parsed_value_is_decoded_and_rendered() {
    let v: serde_json::Value = serde_json::from_str(EXTRA_FIELD_LINE).unwrap();
    assert_eq!(
        process_parsed("ignored", Some(to_value(&v)), Format::Short, 10, true, false),
        Some("22:56:52.856Z  INFO myservice: My message (extra=field)\n".to_string())
    );
    assert_eq!(
        process_parsed("raw", None, Format::Short, 10, false, false),
        Some("raw\n".to_string())
    );
    assert_eq!(process_parsed("raw", None, Format::Short, 10, true, false), None);
}

#[test]
fn float_extras_keep_serde_json_text() {
    let line = r#"{"v":0,"name":"a","msg":"m","level":30,"hostname":"h","pid":7,"time":"2012-02-08T22:56:52.000Z","f":1.5,"g":-3}"#;
    assert_eq!(
        run(line, Format::Bunyan, 0, true),
        "{\"v\":0,\"name\":\"a\",\"msg\":\"m\",\"level\":30,\"hostname\":\"h\",\"pid\":7,\"time\":\"2012-02-08T22:56:52.000Z\",\"f\":1.5,\"g\":-3}\n"
    );
}
