//! Rendering of a record's extra fields: an inline `(key=value,...)` suffix and
//! an indented block of detail entries.
use vstd::prelude::*;
use crate::json::{JsonValue, json_text, push_json};
use crate::level::{Style, styled, push_styled};
use crate::text::{chars_of, string_of, push_all};

verus! {

/// Four spaces: the indentation of detail entries.
pub open spec fn four_spaces() -> Seq<char> {
    seq![' ', ' ', ' ', ' ']
}

/// `s` without one final line ending (`\n` or `\r\n`), if it has one.
pub open spec fn strip_final_newline(s: Seq<char>) -> Seq<char> {
    if s.len() >= 2 && s[s.len() - 2] == '\r' && s[s.len() - 1] == '\n' {
        s.take(s.len() - 2)
    } else if s.len() >= 1 && s[s.len() - 1] == '\n' {
        s.drop_last()
    } else {
        s
    }
}

/// `s` with every line ending (`\n` or `\r\n`) replaced by a newline and four spaces.
pub open spec fn indent_breaks(s: Seq<char>) -> Seq<char>
    decreases s.len(),
{
    if s.len() == 0 {
        seq![]
    } else if s.last() == '\n' {
        if s.len() >= 2 && s[s.len() - 2] == '\r' {
            indent_breaks(s.take(s.len() - 2)) + seq!['\n'] + four_spaces()
        } else {
            indent_breaks(s.drop_last()) + seq!['\n'] + four_spaces()
        }
    } else {
        indent_breaks(s.drop_last()).push(s.last())
    }
}

/// Every line of `s` prefixed by four spaces, lines joined by newlines.
pub open spec fn indented(s: Seq<char>) -> Seq<char> {
    four_spaces() + indent_breaks(strip_final_newline(s))
}

/// Appends `indented(s)`.
fn push_indented(out: &mut Vec<char>, s: &Vec<char>)
    ensures
        final(out)@ == old(out)@ + indented(s@),
{
    let n = s.len();
    let mut end: usize = n;
    if n >= 2 && s[n - 2] == '\r' && s[n - 1] == '\n' {
        end = n - 2;
    } else if n >= 1 && s[n - 1] == '\n' {
        end = n - 1;
    }
    assert(s@.take(end as int) == strip_final_newline(s@));
    let ghost t = s@.take(end as int);
    out.push(' ');
    out.push(' ');
    out.push(' ');
    out.push(' ');
    let ghost start = out@;
    let mut i: usize = 0;
    while i < end
        invariant
            end <= s@.len(),
            t == s@.take(end as int),
            i <= end,
            0 < i < end ==> !(s@[i - 1] == '\r' && s@[i as int] == '\n'),
            out@ == start + indent_breaks(t.take(i as int)),
        decreases end - i,
    {
        let c = s[i];
        if c == '\r' && i + 1 < end && s[i + 1] == '\n' {
            out.push('\n');
            out.push(' ');
            out.push(' ');
            out.push(' ');
            out.push(' ');
            assert(t.take(i + 2 as int).take(i as int) == t.take(i as int));
            i = i + 2;
        } else {
            if c == '\n' {
                out.push('\n');
                out.push(' ');
                out.push(' ');
                out.push(' ');
                out.push(' ');
            } else {
                out.push(c);
            }
            assert(t.take(i + 1 as int).drop_last() == t.take(i as int));
            i = i + 1;
        }
        assert(out@ =~= start + indent_breaks(t.take(i as int)));
    }
    assert(t.take(i as int) == t);
    assert(out@ =~= old(out)@ + indented(s@));
}

/// Every line of `s` indented by four spaces.
pub fn indent(s: &str) -> (r: String)
    ensures
        r@ == indented(s@),
{
    let cs = chars_of(s);
    let mut out: Vec<char> = Vec::new();
    push_indented(&mut out, &cs);
    assert(out@ =~= indented(s@));
    string_of(&out)
}

/// Two spaces: the indent unit for non-string extra values.
pub open spec fn two_spaces() -> Seq<char> {
    seq![' ', ' ']
}

/// How an extra value is written inline: a string as its raw content, quoted
/// when it is empty or holds a space; any other value as pretty JSON with a
/// two-space indent.
pub open spec fn value_text(v: JsonValue) -> Seq<char> {
    match v {
        JsonValue::Str(s) => if s@.len() == 0 || s@.contains(' ') {
            seq!['"'] + s@ + seq!['"']
        } else {
            s@
        },
        _ => json_text(v, two_spaces(), seq![]),
    }
}

/// What a detail entry shows after the key: a string's raw content, else the
/// inline text.
pub open spec fn detail_value_text(v: JsonValue) -> Seq<char> {
    match v {
        JsonValue::Str(s) => s@,
        _ => value_text(v),
    }
}

/// Whether a stringified value goes to the detail block: it holds a newline or
/// is longer than fifty characters.
pub open spec fn is_detail(t: Seq<char>) -> bool {
    t.contains('\n') || t.len() > 50
}

/// One inline entry: the styled key, `=`, and the value text.
pub open spec fn inline_entry(key: Seq<char>, v: JsonValue, color: bool) -> Seq<char> {
    styled(key, Style::Bold, color) + seq!['='] + value_text(v)
}

/// One detail entry: the styled key, `: ` and the value, every line indented.
pub open spec fn detail_entry(key: Seq<char>, v: JsonValue, color: bool) -> Seq<char> {
    indented(styled(key, Style::Bold, color) + seq![':', ' '] + detail_value_text(v))
}

/// The inline entries of `m`, in order, joined by commas.
pub open spec fn inline_part(m: Seq<(String, JsonValue)>, color: bool) -> Seq<char>
    decreases m.len(),
{
    if m.len() == 0 {
        seq![]
    } else {
        let prev = inline_part(m.drop_last(), color);
        let (k, v) = m.last();
        if is_detail(value_text(v)) {
            prev
        } else if prev.len() == 0 {
            inline_entry(k@, v, color)
        } else {
            prev + seq![','] + inline_entry(k@, v, color)
        }
    }
}

/// The separator line between two detail entries.
pub open spec fn detail_sep() -> Seq<char> {
    seq!['\n', ' ', ' ', ' ', ' ', '-', '-', '\n']
}

/// The detail entries of `m`, in order, separated by `detail_sep`.
pub open spec fn detail_part(m: Seq<(String, JsonValue)>, color: bool) -> Seq<char>
    decreases m.len(),
{
    if m.len() == 0 {
        seq![]
    } else {
        let prev = detail_part(m.drop_last(), color);
        let (k, v) = m.last();
        if !is_detail(value_text(v)) {
            prev
        } else if prev.len() == 0 {
            detail_entry(k@, v, color)
        } else {
            prev + detail_sep() + detail_entry(k@, v, color)
        }
    }
}

/// The whole rendering of the extras `m`: ` (inline)` and a newline, or a bare
/// newline when no entry is inline; then the detail block and a newline, if any.
pub open spec fn extras_text(m: Seq<(String, JsonValue)>, color: bool) -> Seq<char> {
    let inl = inline_part(m, color);
    let det = detail_part(m, color);
    (if inl.len() == 0 {
        seq!['\n']
    } else {
        seq![' ', '('] + inl + seq![')', '\n']
    }) + (if det.len() == 0 {
        seq![]
    } else {
        det.push('\n')
    })
}

/// The inline/detail boundary: a text of exactly fifty characters without a
/// newline is inline, one of fifty-one is a detail, and one with a newline is
/// always a detail. For a string value without spaces or newlines, the text is
/// the string itself.
pub proof fn lemma_classification_boundary(t: Seq<char>, s: String)
    ensures
        t.len() == 50 && !t.contains('\n') ==> !is_detail(t),
        t.len() == 51 ==> is_detail(t),
        t.contains('\n') ==> is_detail(t),
        s@.len() == 50 && !s@.contains(' ') && !s@.contains('\n') ==> !is_detail(
            value_text(JsonValue::Str(s)),
        ),
        s@.len() == 51 && !s@.contains(' ') ==> is_detail(value_text(JsonValue::Str(s))),
{
}

/// The text of an extra value as `value_text` gives it.
fn value_chars(v: &JsonValue) -> (r: Vec<char>)
    ensures
        r@ == value_text(*v),
{
    match v {
        JsonValue::Str(s) => {
            let cs = chars_of(s.as_str());
            let mut quote = cs.len() == 0;
            let mut i: usize = 0;
            while i < cs.len()
                invariant
                    i <= cs@.len(),
                    quote == (cs@.len() == 0 || cs@.take(i as int).contains(' ')),
                decreases cs@.len() - i,
            {
                if cs[i] == ' ' {
                    quote = true;
                }
                i = i + 1;
                assert(cs@.take(i as int) == cs@.take(i - 1 as int).push(cs@[i - 1]));
                assert(cs@.take(i as int).contains(' ') == (cs@.take(i - 1 as int).contains(' ')
                    || cs@[i - 1] == ' ')) by {
                    if cs@[i - 1] == ' ' {
                        assert(cs@.take(i as int)[i - 1] == ' ');
                    }
                    if cs@.take(i - 1 as int).contains(' ') {
                        let j = choose|j: int| 0 <= j < i - 1 && #[trigger] cs@.take(i - 1 as int)[j] == ' ';
                        assert(cs@.take(i as int)[j] == ' ');
                    }
                }
            }
            assert(cs@.take(i as int) == cs@);
            if quote {
                let mut out: Vec<char> = Vec::new();
                out.push('"');
                push_all(&mut out, &cs);
                out.push('"');
                assert(out@ =~= value_text(*v));
                out
            } else {
                cs
            }
        },
        _ => {
            let unit: Vec<char> = vec![' ', ' '];
            let pad: Vec<char> = Vec::new();
            let mut out: Vec<char> = Vec::new();
            push_json(&mut out, v, &unit, &pad);
            assert(out@ =~= value_text(*v));
            out
        },
    }
}

/// Whether `t` holds a newline or is longer than fifty characters.
fn detail_check(t: &Vec<char>) -> (r: bool)
    ensures
        r == is_detail(t@),
{
    if t.len() > 50 {
        return true;
    }
    let mut i: usize = 0;
    while i < t.len()
        invariant
            i <= t@.len(),
            !t@.take(i as int).contains('\n'),
        decreases t@.len() - i,
    {
        if t[i] == '\n' {
            assert(t@[i as int] == '\n');
            return true;
        }
        i = i + 1;
        assert(!t@.take(i as int).contains('\n')) by {
            if t@.take(i as int).contains('\n') {
                let j = choose|j: int| 0 <= j < i && #[trigger] t@.take(i as int)[j] == '\n';
                if j < i - 1 {
                    assert(t@.take(i - 1 as int)[j] == '\n');
                }
            }
        }
    }
    assert(t@.take(i as int) == t@);
    false
}

/// Whether the stringified value `s` is shown as a detail entry rather than inline.
pub fn is_detail_text(s: &str) -> (r: bool)
    ensures
        r == is_detail(s@),
        r == (s@.contains('\n') || s@.len() > 50),
{
    let cs = chars_of(s);
    detail_check(&cs)
}

/// The inline text of an extra value: see `value_text`.
pub fn stringify_value(v: &JsonValue) -> (r: String)
    ensures
        r@ == value_text(*v),
{
    let cs = value_chars(v);
    string_of(&cs)
}

/// Appends the rendering of the extras `m` (see `extras_text`).
pub fn push_extras(out: &mut Vec<char>, m: &Vec<(String, JsonValue)>, color: bool)
    ensures
        final(out)@ == old(out)@ + extras_text(m@, color),
{
    let mut inl: Vec<char> = Vec::new();
    let mut det: Vec<char> = Vec::new();
    let mut i: usize = 0;
    while i < m.len()
        invariant
            i <= m@.len(),
            inl@ == inline_part(m@.take(i as int), color),
            det@ == detail_part(m@.take(i as int), color),
        decreases m@.len() - i,
    {
        let key = chars_of(m[i].0.as_str());
        let text = value_chars(&m[i].1);
        let ghost prefix = m@.take(i + 1 as int);
        assert(prefix.drop_last() == m@.take(i as int));
        if detail_check(&text) {
            if det.len() > 0 {
                det.push('\n');
                det.push(' ');
                det.push(' ');
                det.push(' ');
                det.push(' ');
                det.push('-');
                det.push('-');
                det.push('\n');
            }
            let mut entry: Vec<char> = Vec::new();
            push_styled(&mut entry, &key, Style::Bold, color);
            entry.push(':');
            entry.push(' ');
            match &m[i].1 {
                JsonValue::Str(s) => {
                    let raw = chars_of(s.as_str());
                    push_all(&mut entry, &raw);
                },
                _ => {
                    push_all(&mut entry, &text);
                },
            }
            assert(entry@ =~= styled(key@, Style::Bold, color) + seq![':', ' '] + detail_value_text(m@[i as int].1));
            push_indented(&mut det, &entry);
        } else {
            if inl.len() > 0 {
                inl.push(',');
            }
            push_styled(&mut inl, &key, Style::Bold, color);
            inl.push('=');
            push_all(&mut inl, &text);
        }
        i = i + 1;
        assert(inl@ =~= inline_part(prefix, color));
        assert(det@ =~= detail_part(prefix, color));
    }
    assert(m@.take(i as int) == m@);
    let ghost start = out@;
    if inl.len() == 0 {
        out.push('\n');
    } else {
        out.push(' ');
        out.push('(');
        push_all(out, &inl);
        out.push(')');
        out.push('\n');
    }
    if det.len() > 0 {
        push_all(out, &det);
        out.push('\n');
    }
    assert(out@ =~= start + extras_text(m@, color));
}

/// The rendering of a record's extra fields (see `extras_text`).
pub fn format_extras(extra_fields: &Vec<(String, JsonValue)>, color: bool) -> (r: String)
    ensures
        r@ == extras_text(extra_fields@, color),
{
    let mut out: Vec<char> = Vec::new();
    push_extras(&mut out, extra_fields, color);
    assert(out@ =~= extras_text(extra_fields@, color));
    string_of(&out)
}

} // verus!
