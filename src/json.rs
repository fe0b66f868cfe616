//! A JSON value tree and its rendering, compact or pretty with a chosen indent unit.
use vstd::prelude::*;
use crate::text::{decimal, digit_char, push_all, push_decimal, chars_of, string_of};

verus! {

/// A decoded JSON value. Object members keep the order in which they were read.
pub enum JsonValue {
    Null,
    Bool(bool),
    /// A non-negative integer.
    UInt(u64),
    /// A negative integer.
    NegInt(i64),
    /// Any other number, as its JSON text.
    Float(String),
    Str(String),
    Array(Vec<JsonValue>),
    Object(Vec<(String, JsonValue)>),
}

/// Whether every character of `s` is a decimal digit.
pub open spec fn digits_only(s: Seq<char>) -> bool {
    forall|i: int| 0 <= i < s.len() ==> '0' <= #[trigger] s[i] <= '9'
}

/// The integer part of a JSON number: one or more digits, no leading zero.
pub open spec fn int_part(s: Seq<char>) -> bool {
    s.len() > 0 && digits_only(s) && (s[0] == '0' ==> s.len() == 1)
}

/// The optional fraction of a JSON number: empty, or `.` and one or more digits.
pub open spec fn frac_part(s: Seq<char>) -> bool {
    s.len() == 0 || (s[0] == '.' && s.len() > 1 && digits_only(s.skip(1)))
}

/// The optional exponent of a JSON number: empty, or `e`/`E`, an optional sign
/// and one or more digits.
pub open spec fn exp_part(s: Seq<char>) -> bool {
    s.len() == 0 || ((s[0] == 'e' || s[0] == 'E') && {
        let r = s.skip(1);
        let d = if r.len() > 0 && (r[0] == '+' || r[0] == '-') {
            r.skip(1)
        } else {
            r
        };
        d.len() > 0 && digits_only(d)
    })
}

/// Whether `t` is a JSON number literal.
pub open spec fn number_text(t: Seq<char>) -> bool {
    let u = if t.len() > 0 && t[0] == '-' {
        t.skip(1)
    } else {
        t
    };
    exists|a: int, b: int|
        0 < a <= b <= u.len() && int_part(#[trigger] u.take(a)) && frac_part(u.subrange(a, b))
            && exp_part(#[trigger] u.skip(b))
}

/// Whether no two members of `ms` share a key.
pub open spec fn keys_distinct(ms: Seq<(String, JsonValue)>) -> bool {
    forall|i: int, j: int| 0 <= i < j < ms.len() ==> (#[trigger] ms[i]).0@ != (#[trigger] ms[j]).0@
}

/// Whether `v` is well formed: every number text is a JSON number literal and no
/// object repeats a key.
pub open spec fn json_wf(v: JsonValue) -> bool
    decreases v,
{
    match v {
        JsonValue::Float(t) => number_text(t@),
        JsonValue::Array(items) => items_wf(items@),
        JsonValue::Object(members) => keys_distinct(members@) && members_wf(members@),
        _ => true,
    }
}

/// Whether every item of `items` is well formed.
pub open spec fn items_wf(items: Seq<JsonValue>) -> bool
    decreases items,
{
    items.len() == 0 || (items_wf(items.drop_last()) && json_wf(items.last()))
}

/// Whether every member value of `ms` is well formed.
pub open spec fn members_wf(ms: Seq<(String, JsonValue)>) -> bool
    decreases ms,
{
    ms.len() == 0 || (members_wf(ms.drop_last()) && json_wf(ms.last().1))
}

/// The lowercase hexadecimal digit for `n`, which must be below sixteen.
pub open spec fn hex_char(n: nat) -> char {
    seq!['0', '1', '2', '3', '4', '5', '6', '7', '8', '9', 'a', 'b', 'c', 'd', 'e', 'f'][n as int]
}

/// How one character of a string is written inside a JSON string literal.
pub open spec fn escape_char(c: char) -> Seq<char> {
    if c == '"' {
        seq!['\\', '"']
    } else if c == '\\' {
        seq!['\\', '\\']
    } else if c == '\n' {
        seq!['\\', 'n']
    } else if c == '\r' {
        seq!['\\', 'r']
    } else if c == '\t' {
        seq!['\\', 't']
    } else if c == '\x08' {
        seq!['\\', 'b']
    } else if c == '\x0c' {
        seq!['\\', 'f']
    } else if (c as u32) < 0x20 {
        seq!['\\', 'u', '0', '0', hex_char((c as u32) as nat / 16), hex_char((c as u32) as nat % 16)]
    } else {
        seq![c]
    }
}

/// The escaped body of a JSON string literal for `s`.
pub open spec fn escaped(s: Seq<char>) -> Seq<char>
    decreases s.len(),
{
    if s.len() == 0 {
        seq![]
    } else {
        escaped(s.drop_last()) + escape_char(s.last())
    }
}

/// The JSON string literal for `s`.
pub open spec fn quoted(s: Seq<char>) -> Seq<char> {
    seq!['"'] + escaped(s) + seq!['"']
}

/// The JSON text of an integer.
pub open spec fn int_text(i: int) -> Seq<char> {
    if i < 0 {
        seq!['-'] + decimal((-i) as nat)
    } else {
        decimal(i as nat)
    }
}

/// What opens a member of a container whose members stand at indentation `pad`:
/// nothing in compact form (`unit` empty), else a newline and the indentation.
pub open spec fn line_break(unit: Seq<char>, pad: Seq<char>) -> Seq<char> {
    if unit.len() == 0 {
        seq![]
    } else {
        seq!['\n'] + pad
    }
}

/// What separates an object key from its value.
pub open spec fn key_sep(unit: Seq<char>) -> Seq<char> {
    if unit.len() == 0 {
        seq![':']
    } else {
        seq![':', ' ']
    }
}

/// What stands before member number `i` of a container.
pub open spec fn member_sep(i: int, unit: Seq<char>, pad: Seq<char>) -> Seq<char> {
    if i == 0 {
        line_break(unit, pad)
    } else {
        seq![','] + line_break(unit, pad)
    }
}

/// The JSON text of `v` whose own line is indented by `pad`, each nesting level
/// adding `unit`; an empty `unit` gives the compact form.
pub open spec fn json_text(v: JsonValue, unit: Seq<char>, pad: Seq<char>) -> Seq<char>
    decreases v,
{
    match v {
        JsonValue::Null => seq!['n', 'u', 'l', 'l'],
        JsonValue::Bool(b) => if b {
            seq!['t', 'r', 'u', 'e']
        } else {
            seq!['f', 'a', 'l', 's', 'e']
        },
        JsonValue::UInt(n) => decimal(n as nat),
        JsonValue::NegInt(i) => int_text(i as int),
        JsonValue::Float(t) => t@,
        JsonValue::Str(s) => quoted(s@),
        JsonValue::Array(items) => if items@.len() == 0 {
            seq!['[', ']']
        } else {
            seq!['['] + items_text(items@, unit, pad + unit) + line_break(unit, pad) + seq![']']
        },
        JsonValue::Object(members) => if members@.len() == 0 {
            seq!['{', '}']
        } else {
            seq!['{'] + members_text(members@, unit, pad + unit) + line_break(unit, pad) + seq![
                '}',
            ]
        },
    }
}

/// The members of an array, each preceded by its separator, at indentation `pad`.
pub open spec fn items_text(items: Seq<JsonValue>, unit: Seq<char>, pad: Seq<char>) -> Seq<char>
    decreases items,
{
    if items.len() == 0 {
        seq![]
    } else {
        items_text(items.drop_last(), unit, pad) + member_sep(items.len() - 1, unit, pad)
            + json_text(items.last(), unit, pad)
    }
}

/// The members of an object, each preceded by its separator, at indentation `pad`.
pub open spec fn members_text(
    members: Seq<(String, JsonValue)>,
    unit: Seq<char>,
    pad: Seq<char>,
) -> Seq<char>
    decreases members,
{
    if members.len() == 0 {
        seq![]
    } else {
        members_text(members.drop_last(), unit, pad) + member_sep(members.len() - 1, unit, pad)
            + quoted(members.last().0@) + key_sep(unit) + json_text(members.last().1, unit, pad)
    }
}

/// Whether `s` holds no newline.
pub open spec fn one_line(s: Seq<char>) -> bool {
    forall|i: int| 0 <= i < s.len() ==> s[i] != '\n'
}

/// A concatenation of two one-line texts is one line.
pub proof fn lemma_one_line_concat(a: Seq<char>, b: Seq<char>)
    requires
        one_line(a),
        one_line(b),
    ensures
        one_line(a + b),
{
    assert forall|i: int| 0 <= i < (a + b).len() implies (a + b)[i] != '\n' by {
        if i < a.len() {
            assert((a + b)[i] == a[i]);
        } else {
            assert((a + b)[i] == b[i - a.len()]);
        }
    }
}

/// Decimal digits hold no newline.
pub proof fn lemma_decimal_one_line(n: nat)
    ensures
        one_line(decimal(n)),
    decreases n,
{
    if n >= 10 {
        lemma_decimal_one_line(n / 10);
        lemma_one_line_concat(decimal(n / 10), seq![digit_char(n % 10)]);
        assert(decimal(n) =~= decimal(n / 10) + seq![digit_char(n % 10)]);
    }
}

proof fn lemma_escaped_one_line(s: Seq<char>)
    ensures
        one_line(escaped(s)),
    decreases s.len(),
{
    if s.len() > 0 {
        lemma_escaped_one_line(s.drop_last());
        let c = s.last();
        let e = escape_char(c);
        assert(one_line(e)) by {
            if (c as u32) < 0x20 && c != '\n' && c != '\r' && c != '\t' && c != '\x08' && c != '\x0c' {
                let h = (c as u32) as nat;
                assert(h / 16 < 16 && h % 16 < 16);
            }
        }
        lemma_one_line_concat(escaped(s.drop_last()), e);
    }
}

/// A JSON string literal holds no newline: a newline is escaped.
pub proof fn lemma_quoted_one_line(s: Seq<char>)
    ensures
        one_line(quoted(s)),
{
    lemma_escaped_one_line(s);
    lemma_one_line_concat(seq!['"'], escaped(s));
    lemma_one_line_concat(seq!['"'] + escaped(s), seq!['"']);
}

proof fn lemma_number_one_line(t: Seq<char>)
    requires
        number_text(t),
    ensures
        one_line(t),
{
    let u = if t.len() > 0 && t[0] == '-' {
        t.skip(1)
    } else {
        t
    };
    let (a, b) = choose|a: int, b: int|
        0 < a <= b <= u.len() && int_part(#[trigger] u.take(a)) && frac_part(u.subrange(a, b))
            && exp_part(#[trigger] u.skip(b));
    assert forall|i: int| 0 <= i < u.len() implies u[i] != '\n' by {
        if i < a {
            assert(u.take(a)[i] == u[i]);
        } else if i < b {
            let f = u.subrange(a, b);
            if i > a {
                assert(f.skip(1)[i - a - 1] == u[i]);
            } else {
                assert(f[0] == u[i]);
            }
        } else {
            let e = u.skip(b);
            assert(e[i - b] == u[i]);
            if i > b {
                let r = e.skip(1);
                assert(r[i - b - 1] == u[i]);
                if r.len() > 0 && (r[0] == '+' || r[0] == '-') && i > b + 1 {
                    assert(r.skip(1)[i - b - 2] == u[i]);
                }
            }
        }
    }
    assert forall|i: int| 0 <= i < t.len() implies t[i] != '\n' by {
        if t.len() > 0 && t[0] == '-' && i > 0 {
            assert(u[i - 1] == t[i]);
        } else if !(t.len() > 0 && t[0] == '-') {
            assert(u[i] == t[i]);
        }
    }
}

/// The compact text of a well-formed value holds no newline.
pub proof fn lemma_compact_one_line(v: JsonValue)
    requires
        json_wf(v),
    ensures
        one_line(json_text(v, seq![], seq![])),
    decreases v,
{
    let e = Seq::<char>::empty();
    assert(e + e =~= e);
    match v {
        JsonValue::UInt(n) => lemma_decimal_one_line(n as nat),
        JsonValue::NegInt(i) => {
            if i < 0 {
                lemma_decimal_one_line((-i) as nat);
                lemma_one_line_concat(seq!['-'], decimal((-i) as nat));
            } else {
                lemma_decimal_one_line(i as nat);
            }
        },
        JsonValue::Float(t) => lemma_number_one_line(t@),
        JsonValue::Str(s) => lemma_quoted_one_line(s@),
        JsonValue::Array(items) => {
            if items@.len() > 0 {
                lemma_items_one_line(items@);
                lemma_one_line_concat(seq!['['], items_text(items@, e, e));
                lemma_one_line_concat(seq!['['] + items_text(items@, e, e) + line_break(e, e), seq![']']);
            }
        },
        JsonValue::Object(members) => {
            if members@.len() > 0 {
                lemma_members_one_line(members@);
                lemma_one_line_concat(seq!['{'], members_text(members@, e, e));
                lemma_one_line_concat(seq!['{'] + members_text(members@, e, e) + line_break(e, e), seq!['}']);
            }
        },
        _ => {},
    }
}

proof fn lemma_items_one_line(items: Seq<JsonValue>)
    requires
        items_wf(items),
    ensures
        one_line(items_text(items, seq![], seq![])),
    decreases items,
{
    let e = Seq::<char>::empty();
    if items.len() > 0 {
        lemma_items_one_line(items.drop_last());
        lemma_compact_one_line(items.last());
        let a = items_text(items.drop_last(), e, e);
        let m = member_sep(items.len() - 1, e, e);
        assert(one_line(m));
        lemma_one_line_concat(a, m);
        lemma_one_line_concat(a + m, json_text(items.last(), e, e));
    }
}

proof fn lemma_members_one_line(ms: Seq<(String, JsonValue)>)
    requires
        members_wf(ms),
    ensures
        one_line(members_text(ms, seq![], seq![])),
    decreases ms,
{
    let e = Seq::<char>::empty();
    if ms.len() > 0 {
        lemma_members_one_line(ms.drop_last());
        lemma_compact_one_line(ms.last().1);
        lemma_quoted_one_line(ms.last().0@);
        let a = members_text(ms.drop_last(), e, e);
        let m = member_sep(ms.len() - 1, e, e);
        assert(one_line(m));
        lemma_one_line_concat(a, m);
        lemma_one_line_concat(a + m, quoted(ms.last().0@));
        lemma_one_line_concat(a + m + quoted(ms.last().0@), key_sep(e));
        lemma_one_line_concat(a + m + quoted(ms.last().0@) + key_sep(e), json_text(ms.last().1, e, e));
    }
}

fn hex_digit(n: u32) -> (c: char)
    requires
        n < 16,
    ensures
        c == hex_char(n as nat),
{
    let digits: [char; 16] = [
        '0', '1', '2', '3', '4', '5', '6', '7', '8', '9', 'a', 'b', 'c', 'd', 'e', 'f',
    ];
    digits[n as usize]
}

/// Appends the escaped form of `c`.
fn push_escaped_char(out: &mut Vec<char>, c: char)
    ensures
        final(out)@ == old(out)@ + escape_char(c),
{
    if c == '"' {
        out.push('\\');
        out.push('"');
    } else if c == '\\' {
        out.push('\\');
        out.push('\\');
    } else if c == '\n' {
        out.push('\\');
        out.push('n');
    } else if c == '\r' {
        out.push('\\');
        out.push('r');
    } else if c == '\t' {
        out.push('\\');
        out.push('t');
    } else if c == '\x08' {
        out.push('\\');
        out.push('b');
    } else if c == '\x0c' {
        out.push('\\');
        out.push('f');
    } else if (c as u32) < 0x20 {
        let code: u32 = c as u32;
        out.push('\\');
        out.push('u');
        out.push('0');
        out.push('0');
        out.push(hex_digit(code / 16));
        out.push(hex_digit(code % 16));
    } else {
        out.push(c);
    }
    assert(final(out)@ =~= old(out)@ + escape_char(c));
}

/// Appends the JSON string literal for `s`.
pub fn push_quoted(out: &mut Vec<char>, s: &Vec<char>)
    ensures
        final(out)@ == old(out)@ + quoted(s@),
{
    out.push('"');
    let ghost start = out@;
    let mut i: usize = 0;
    while i < s.len()
        invariant
            i <= s@.len(),
            out@ == start + escaped(s@.take(i as int)),
        decreases s@.len() - i,
    {
        push_escaped_char(out, s[i]);
        i = i + 1;
        assert(s@.take(i as int).drop_last() == s@.take(i - 1 as int));
    }
    assert(s@.take(i as int) == s@);
    out.push('"');
    assert(out@ =~= old(out)@ + quoted(s@));
}

fn push_line_break(out: &mut Vec<char>, unit: &Vec<char>, pad: &Vec<char>)
    ensures
        final(out)@ == old(out)@ + line_break(unit@, pad@),
{
    if unit.len() > 0 {
        out.push('\n');
        push_all(out, pad);
        assert(final(out)@ =~= old(out)@ + line_break(unit@, pad@));
    } else {
        assert(final(out)@ =~= old(out)@ + line_break(unit@, pad@));
    }
}

fn push_member_sep(out: &mut Vec<char>, i: usize, unit: &Vec<char>, pad: &Vec<char>)
    ensures
        final(out)@ == old(out)@ + member_sep(i as int, unit@, pad@),
{
    if i > 0 {
        out.push(',');
    }
    push_line_break(out, unit, pad);
    assert(final(out)@ =~= old(out)@ + member_sep(i as int, unit@, pad@));
}

/// Appends the JSON text of `v`, as `json_text` gives it.
pub fn push_json(out: &mut Vec<char>, v: &JsonValue, unit: &Vec<char>, pad: &Vec<char>)
    ensures
        final(out)@ == old(out)@ + json_text(*v, unit@, pad@),
    decreases v,
{
    match v {
        JsonValue::Null => {
            out.push('n');
            out.push('u');
            out.push('l');
            out.push('l');
        },
        JsonValue::Bool(b) => {
            if *b {
                out.push('t');
                out.push('r');
                out.push('u');
                out.push('e');
            } else {
                out.push('f');
                out.push('a');
                out.push('l');
                out.push('s');
                out.push('e');
            }
        },
        JsonValue::UInt(n) => {
            push_decimal(out, *n);
        },
        JsonValue::NegInt(i) => {
            if *i < 0 {
                out.push('-');
                let m: u64 = (0i128 - *i as i128) as u64;
                push_decimal(out, m);
            } else {
                push_decimal(out, *i as u64);
            }
        },
        JsonValue::Float(t) => {
            let cs = chars_of(t.as_str());
            push_all(out, &cs);
        },
        JsonValue::Str(s) => {
            let cs = chars_of(s.as_str());
            push_quoted(out, &cs);
        },
        JsonValue::Array(items) => {
            if items.len() == 0 {
                out.push('[');
                out.push(']');
            } else {
                out.push('[');
                let ghost start = out@;
                let mut inner = pad.clone();
                push_all(&mut inner, unit);
                let mut i: usize = 0;
                while i < items.len()
                    invariant
                        i <= items@.len(),
                        inner@ == pad@ + unit@,
                        *v == JsonValue::Array(*items),
                        out@ == start + items_text(items@.take(i as int), unit@, inner@),
                    decreases items@.len() - i,
                {
                    push_member_sep(out, i, unit, &inner);
                    proof {
                        vstd::std_specs::vec::axiom_vec_index_decreases(*items, i as int);
                        assert(decreases_to!(*v => (*v)->Array_0));
                        assert(decreases_to!(*v => items[i as int]));
                    }
                    push_json(out, &items[i], unit, &inner);
                    i = i + 1;
                    assert(items@.take(i as int).drop_last() == items@.take(i - 1 as int));
                }
                assert(items@.take(i as int) == items@);
                push_line_break(out, unit, pad);
                out.push(']');
            }
        },
        JsonValue::Object(members) => {
            if members.len() == 0 {
                out.push('{');
                out.push('}');
            } else {
                out.push('{');
                let ghost start = out@;
                let mut inner = pad.clone();
                push_all(&mut inner, unit);
                let mut i: usize = 0;
                while i < members.len()
                    invariant
                        i <= members@.len(),
                        inner@ == pad@ + unit@,
                        *v == JsonValue::Object(*members),
                        out@ == start + members_text(members@.take(i as int), unit@, inner@),
                    decreases members@.len() - i,
                {
                    push_member_sep(out, i, unit, &inner);
                    let key = chars_of(members[i].0.as_str());
                    push_quoted(out, &key);
                    if unit.len() == 0 {
                        out.push(':');
                    } else {
                        out.push(':');
                        out.push(' ');
                    }
                    proof {
                        vstd::std_specs::vec::axiom_vec_index_decreases(*members, i as int);
                        assert(decreases_to!(*v => (*v)->Object_0));
                        assert(decreases_to!(*v => members[i as int]));
                        assert(decreases_to!(members@[i as int] => members@[i as int].1));
                    }
                    push_json(out, &members[i].1, unit, &inner);
                    i = i + 1;
                    assert(members@.take(i as int).drop_last() == members@.take(i - 1 as int));
                }
                assert(members@.take(i as int) == members@);
                push_line_break(out, unit, pad);
                out.push('}');
            }
        },
    }
    assert(final(out)@ =~= old(out)@ + json_text(*v, unit@, pad@));
}

/// The JSON text of `value` at the outermost level, each nesting level indented by
/// `indent`; an empty `indent` gives the compact form.
pub fn json_to_indented_string(value: &JsonValue, indent: &str) -> (r: String)
    ensures
        r@ == json_text(*value, indent@, seq![]),
{
    let unit = chars_of(indent);
    let pad: Vec<char> = Vec::new();
    let mut out: Vec<char> = Vec::new();
    push_json(&mut out, value, &unit, &pad);
    assert(out@ =~= json_text(*value, indent@, seq![]));
    string_of(&out)
}

} // verus!
