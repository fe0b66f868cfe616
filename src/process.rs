//! The per-line pipeline: decode or pass through, filter by level, render.
use vstd::prelude::*;
use crate::decode::{decode_record, decodes, decodes_to, field, key_level, uint_field};
use crate::json::JsonValue;
use crate::parse::{json_of, parse_json};
use crate::level::passes_filter;
use crate::record::rendered;
use crate::style::Format;
use crate::text::{chars_of, string_of};

verus! {

/// The raw level of a value that decodes as a record.
pub open spec fn level_of(v: JsonValue) -> u64 {
    uint_field(field(v->Object_0@, key_level()), 255).unwrap()
}

/// What one input line produces, given `parsed`, the line read as JSON (`None`
/// when it is not JSON). A line that does not decode as a record is passed
/// through with a newline, or dropped when `strict`; a record below
/// `level_filter` is dropped; any other record is rendered in `format`.
pub fn process_parsed(
    line: &str,
    parsed: Option<JsonValue>,
    format: Format,
    level_filter: u8,
    strict: bool,
    color: bool,
) -> (r: Option<String>)
    ensures
        !(parsed is Some && decodes(parsed.unwrap())) ==> (if strict {
            r is None
        } else {
            r matches Some(o) && o@ == line@.push('\n')
        }),
        parsed is Some && decodes(parsed.unwrap()) ==> {
            &&& (r is Some <==> level_of(parsed.unwrap()) >= level_filter)
            &&& (r matches Some(o) ==> exists|rec|
                decodes_to(parsed.unwrap(), rec) && o@ == rendered(rec, format, color))
        },
{
    let rec = match parsed {
        Some(v) => decode_record(v),
        None => None,
    };
    match rec {
        Some(rec) => {
            if passes_filter(rec.level, level_filter) {
                let mut log = String::new();
                rec.format(&format, color, &mut log);
                Some(log)
            } else {
                None
            }
        },
        None => {
            if strict {
                None
            } else {
                let mut cs = chars_of(line);
                cs.push('\n');
                Some(string_of(&cs))
            }
        },
    }
}

/// What one input line produces: the line is read as JSON (`json_of`) and
/// handled as `process_parsed` says.
pub fn process_line(
    line: &str,
    format: Format,
    level_filter: u8,
    strict: bool,
    color: bool,
) -> (r: Option<String>)
    ensures
        !(json_of(line@) is Some && decodes(json_of(line@).unwrap())) ==> (if strict {
            r is None
        } else {
            r matches Some(o) && o@ == line@.push('\n')
        }),
        json_of(line@) is Some && decodes(json_of(line@).unwrap()) ==> {
            &&& (r is Some <==> level_of(json_of(line@).unwrap()) >= level_filter)
            &&& (r matches Some(o) ==> exists|rec|
                decodes_to(json_of(line@).unwrap(), rec) && o@ == rendered(rec, format, color))
        },
{
    let parsed = parse_json(line);
    process_parsed(line, parsed, format, level_filter, strict, color)
}

} // verus!
