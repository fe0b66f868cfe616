//! The log record model and its rendering in every output format.
use vstd::prelude::*;
use crate::json::{JsonValue, keys_distinct, members_wf, one_line, lemma_one_line_concat, lemma_quoted_one_line, lemma_decimal_one_line, lemma_compact_one_line, quoted, key_sep, line_break, member_sep, json_text, push_json, push_quoted};
use crate::decode::is_fixed_key;
use crate::extras::{extras_text, push_extras};
use crate::level::{level_token, push_level, Style, styled, push_styled};
use crate::style::{Format, json_width};
use crate::text::{decimal, push_decimal, chars_of, string_of, push_all};
use crate::time::{Timestamp, rfc3339, clock_text, push_rfc3339, push_clock};

verus! {

/// One decoded log line.
pub struct LogRecord {
    /// The bunyan log format version.
    pub version: u8,
    /// Name of the service emitting the log.
    pub name: String,
    /// The log message.
    pub message: String,
    /// The raw numeric severity.
    pub level: u8,
    /// Name of the host.
    pub hostname: String,
    /// Process identifier.
    pub process_identifier: u32,
    /// When the event happened.
    pub time: Timestamp,
    /// Every other field, in the order of the source object.
    pub extras: Vec<(String, JsonValue)>,
}

impl LogRecord {
    /// The timestamp is a valid one, no extra field has the key of a fixed one or
    /// of another extra field, and every extra value is well formed.
    pub open spec fn wf(&self) -> bool {
        &&& self.time.wf()
        &&& keys_distinct(self.extras@)
        &&& members_wf(self.extras@)
        &&& forall|i: int|
            0 <= i < self.extras@.len() ==> !is_fixed_key(#[trigger] self.extras@[i].0@)
    }
}

/// The fixed members of a record's JSON form: key and value text, in order.
pub open spec fn fixed_members(r: LogRecord) -> Seq<(Seq<char>, Seq<char>)> {
    seq![
        (seq!['v'], decimal(r.version as nat)),
        (seq!['n', 'a', 'm', 'e'], quoted(r.name@)),
        (seq!['m', 's', 'g'], quoted(r.message@)),
        (seq!['l', 'e', 'v', 'e', 'l'], decimal(r.level as nat)),
        (seq!['h', 'o', 's', 't', 'n', 'a', 'm', 'e'], quoted(r.hostname@)),
        (seq!['p', 'i', 'd'], decimal(r.process_identifier as nat)),
        (seq!['t', 'i', 'm', 'e'], quoted(rfc3339(r.time))),
    ]
}

/// The first `n` fixed members, each with its separator, at indentation `unit`.
pub open spec fn fixed_text(f: Seq<(Seq<char>, Seq<char>)>, unit: Seq<char>) -> Seq<char>
    decreases f.len(),
{
    if f.len() == 0 {
        seq![]
    } else {
        fixed_text(f.drop_last(), unit) + member_sep(f.len() - 1, unit, unit) + quoted(f.last().0)
            + key_sep(unit) + f.last().1
    }
}

/// The extra members that follow the fixed ones, each after a comma.
pub open spec fn trailing_members_text(
    m: Seq<(String, JsonValue)>,
    unit: Seq<char>,
    pad: Seq<char>,
) -> Seq<char>
    decreases m.len(),
{
    if m.len() == 0 {
        seq![]
    } else {
        trailing_members_text(m.drop_last(), unit, pad) + seq![','] + line_break(unit, pad) + quoted(
            m.last().0@,
        ) + key_sep(unit) + json_text(m.last().1, unit, pad)
    }
}

/// `n` spaces.
pub open spec fn spaces(n: nat) -> Seq<char>
    decreases n,
{
    if n == 0 {
        seq![]
    } else {
        spaces((n - 1) as nat).push(' ')
    }
}

/// The JSON object of a record: the fixed members in declared order, then the
/// extras in their order; indented by `unit` per level, compact when it is empty.
pub open spec fn record_json_text(r: LogRecord, unit: Seq<char>) -> Seq<char> {
    seq!['{'] + fixed_text(fixed_members(r), unit) + trailing_members_text(r.extras@, unit, unit)
        + line_break(unit, seq![]) + seq!['}']
}

/// The `Long` line: `[time] LEVEL: name/pid on host: message` and the extras.
pub open spec fn long_text(r: LogRecord, color: bool) -> Seq<char> {
    seq!['['] + rfc3339(r.time) + seq![']', ' '] + level_token(r.level, color) + seq![':', ' ']
        + r.name@ + seq!['/'] + decimal(r.process_identifier as nat) + seq![' ', 'o', 'n', ' ']
        + r.hostname@ + seq![':', ' '] + styled(r.message@, Style::Cyan, color) + extras_text(
        r.extras@,
        color,
    )
}

/// The `Short` line: `HH:MM:SS.mmmZ LEVEL name: message` and the extras.
pub open spec fn short_text(r: LogRecord, color: bool) -> Seq<char> {
    clock_text(r.time) + seq!['Z', ' '] + level_token(r.level, color) + seq![' '] + r.name@ + seq![
        ':',
        ' ',
    ] + styled(r.message@, Style::Cyan, color) + extras_text(r.extras@, color)
}

/// The text of a record in format `f`, with or without color.
pub open spec fn rendered(r: LogRecord, f: Format, color: bool) -> Seq<char> {
    match f {
        Format::Long => long_text(r, color),
        Format::Short => short_text(r, color),
        _ => {
            let w = json_width(f).unwrap();
            if w == 0 {
                record_json_text(r, seq![]).push('\n')
            } else {
                record_json_text(r, spaces(w))
            }
        },
    }
}

/// Appends a quoted key and the key separator.
fn push_key(out: &mut Vec<char>, key: &Vec<char>, unit: &Vec<char>)
    ensures
        final(out)@ == old(out)@ + quoted(key@) + key_sep(unit@),
{
    push_quoted(out, key);
    out.push(':');
    if unit.len() > 0 {
        out.push(' ');
    }
    assert(final(out)@ =~= old(out)@ + quoted(key@) + key_sep(unit@));
}

/// Appends the separator of member `i` at indentation `unit`.
fn push_sep(out: &mut Vec<char>, i: usize, unit: &Vec<char>)
    ensures
        final(out)@ == old(out)@ + member_sep(i as int, unit@, unit@),
{
    if i > 0 {
        out.push(',');
    }
    if unit.len() > 0 {
        out.push('\n');
        push_all(out, unit);
    }
    assert(final(out)@ =~= old(out)@ + member_sep(i as int, unit@, unit@));
}

/// Member `i` of the fixed members `f`, with its separator.
pub open spec fn fixed_piece(f: Seq<(Seq<char>, Seq<char>)>, i: int, unit: Seq<char>) -> Seq<
    char,
> {
    member_sep(i, unit, unit) + quoted(f[i].0) + key_sep(unit) + f[i].1
}

proof fn lemma_fixed_text_step(f: Seq<(Seq<char>, Seq<char>)>, i: int, unit: Seq<char>)
    requires
        0 <= i < f.len(),
    ensures
        fixed_text(f.take(i + 1), unit) == fixed_text(f.take(i), unit) + fixed_piece(f, i, unit),
{
    assert(f.take(i + 1).drop_last() =~= f.take(i));
}

/// Appends fixed member `i` of `f`, extending the fixed text of its first `i` members.
fn push_member(
    out: &mut Vec<char>,
    Ghost(start): Ghost<Seq<char>>,
    Ghost(f): Ghost<Seq<(Seq<char>, Seq<char>)>>,
    i: usize,
    key: &Vec<char>,
    val: &Vec<char>,
    unit: &Vec<char>,
)
    requires
        i < f.len(),
        key@ == f[i as int].0,
        val@ == f[i as int].1,
        old(out)@ == start + fixed_text(f.take(i as int), unit@),
    ensures
        final(out)@ == start + fixed_text(f.take(i + 1), unit@),
{
    let ghost before = out@;
    push_sep(out, i, unit);
    push_key(out, key, unit);
    push_all(out, val);
    proof {
        lemma_fixed_text_step(f, i as int, unit@);
        assert(out@ =~= before + fixed_piece(f, i as int, unit@));
        vstd::seq_lib::lemma_concat_associative(start, fixed_text(f.take(i as int), unit@), fixed_piece(f, i as int, unit@));
    }
}

/// The value texts of the fixed members, in order.
fn fixed_values(r: &LogRecord) -> (v: (Vec<char>, Vec<char>, Vec<char>, Vec<char>, Vec<char>, Vec<char>, Vec<char>))
    ensures
        v.0@ == fixed_members(*r)[0].1,
        v.1@ == fixed_members(*r)[1].1,
        v.2@ == fixed_members(*r)[2].1,
        v.3@ == fixed_members(*r)[3].1,
        v.4@ == fixed_members(*r)[4].1,
        v.5@ == fixed_members(*r)[5].1,
        v.6@ == fixed_members(*r)[6].1,
{
    let mut v0: Vec<char> = Vec::new();
    push_decimal(&mut v0, r.version as u64);
    let mut v1: Vec<char> = Vec::new();
    push_quoted(&mut v1, &chars_of(r.name.as_str()));
    let mut v2: Vec<char> = Vec::new();
    push_quoted(&mut v2, &chars_of(r.message.as_str()));
    let mut v3: Vec<char> = Vec::new();
    push_decimal(&mut v3, r.level as u64);
    let mut v4: Vec<char> = Vec::new();
    push_quoted(&mut v4, &chars_of(r.hostname.as_str()));
    let mut v5: Vec<char> = Vec::new();
    push_decimal(&mut v5, r.process_identifier as u64);
    let mut t: Vec<char> = Vec::new();
    push_rfc3339(&mut t, &r.time);
    let mut v6: Vec<char> = Vec::new();
    push_quoted(&mut v6, &t);
    assert(v0@ =~= fixed_members(*r)[0].1);
    assert(v1@ =~= fixed_members(*r)[1].1);
    assert(v2@ =~= fixed_members(*r)[2].1);
    assert(v3@ =~= fixed_members(*r)[3].1);
    assert(v4@ =~= fixed_members(*r)[4].1);
    assert(v5@ =~= fixed_members(*r)[5].1);
    assert(v6@ =~= fixed_members(*r)[6].1);
    (v0, v1, v2, v3, v4, v5, v6)
}

/// Appends the fixed members of `r` with their separators.
fn push_fixed(out: &mut Vec<char>, r: &LogRecord, unit: &Vec<char>)
    ensures
        final(out)@ == old(out)@ + fixed_text(fixed_members(*r), unit@),
{
    let ghost f = fixed_members(*r);
    let ghost start = out@;
    let vals = fixed_values(r);
    let k0: Vec<char> = vec!['v'];
    let k1: Vec<char> = vec!['n', 'a', 'm', 'e'];
    let k2: Vec<char> = vec!['m', 's', 'g'];
    let k3: Vec<char> = vec!['l', 'e', 'v', 'e', 'l'];
    let k4: Vec<char> = vec!['h', 'o', 's', 't', 'n', 'a', 'm', 'e'];
    let k5: Vec<char> = vec!['p', 'i', 'd'];
    let k6: Vec<char> = vec!['t', 'i', 'm', 'e'];
    assert(k0@ =~= f[0].0 && k1@ =~= f[1].0 && k2@ =~= f[2].0 && k3@ =~= f[3].0);
    assert(k4@ =~= f[4].0 && k5@ =~= f[5].0 && k6@ =~= f[6].0);
    proof {
        assert(f.take(0) =~= Seq::<(Seq<char>, Seq<char>)>::empty());
        assert(fixed_text(f.take(0), unit@) == Seq::<char>::empty());
        assert(out@ == start + fixed_text(f.take(0), unit@));
    }
    push_member(out, Ghost(start), Ghost(f), 0, &k0, &vals.0, unit);
    push_member(out, Ghost(start), Ghost(f), 1, &k1, &vals.1, unit);
    push_member(out, Ghost(start), Ghost(f), 2, &k2, &vals.2, unit);
    push_member(out, Ghost(start), Ghost(f), 3, &k3, &vals.3, unit);
    push_member(out, Ghost(start), Ghost(f), 4, &k4, &vals.4, unit);
    push_member(out, Ghost(start), Ghost(f), 5, &k5, &vals.5, unit);
    push_member(out, Ghost(start), Ghost(f), 6, &k6, &vals.6, unit);
    assert(f.take(7) =~= f);
}

/// Appends `record_json_text(*r, unit@)`.
fn push_record_json(out: &mut Vec<char>, r: &LogRecord, unit: &Vec<char>)
    ensures
        final(out)@ == old(out)@ + record_json_text(*r, unit@),
{
    out.push('{');
    push_fixed(out, r, unit);
    let ghost mid = out@;
    let m = &r.extras;
    let mut i: usize = 0;
    while i < m.len()
        invariant
            i <= m@.len(),
            out@ == mid + trailing_members_text(m@.take(i as int), unit@, unit@),
        decreases m@.len() - i,
    {
        out.push(',');
        if unit.len() > 0 {
            out.push('\n');
            push_all(out, unit);
        }
        push_key(out, &chars_of(m[i].0.as_str()), unit);
        push_json(out, &m[i].1, unit, unit);
        i = i + 1;
        assert(m@.take(i as int).drop_last() =~= m@.take(i - 1 as int));
        assert(out@ =~= mid + trailing_members_text(m@.take(i as int), unit@, unit@));
    }
    assert(m@.take(i as int) =~= m@);
    if unit.len() > 0 {
        out.push('\n');
    }
    out.push('}');
    assert(final(out)@ =~= old(out)@ + record_json_text(*r, unit@));
}

/// Appends the record in one of the JSON formats, with indent width `width`
/// (0: compact, followed by a newline).
fn push_json_form(out: &mut Vec<char>, r: &LogRecord, width: u8)
    ensures
        width == 0 ==> final(out)@ == old(out)@ + record_json_text(*r, seq![]).push('\n'),
        width > 0 ==> final(out)@ == old(out)@ + record_json_text(*r, spaces(width as nat)),
{
    if width == 0 {
        push_record_json(out, r, &Vec::new());
        out.push('\n');
        assert(final(out)@ =~= old(out)@ + record_json_text(*r, seq![]).push('\n'));
    } else {
        let mut unit: Vec<char> = Vec::new();
        let mut k: u8 = 0;
        while k < width
            invariant
                k <= width,
                unit@ == spaces(k as nat),
            decreases width - k,
        {
            unit.push(' ');
            k = k + 1;
        }
        push_record_json(out, r, &unit);
    }
}

#[verifier::rlimit(100)]
fn push_long(out: &mut Vec<char>, r: &LogRecord, color: bool)
    ensures
        final(out)@ == old(out)@ + long_text(*r, color),
{
    out.push('[');
    push_rfc3339(out, &r.time);
    out.push(']');
    out.push(' ');
    push_level(out, r.level, color);
    out.push(':');
    out.push(' ');
    push_all(out, &chars_of(r.name.as_str()));
    out.push('/');
    push_decimal(out, r.process_identifier as u64);
    out.push(' ');
    out.push('o');
    out.push('n');
    out.push(' ');
    push_all(out, &chars_of(r.hostname.as_str()));
    out.push(':');
    out.push(' ');
    push_styled(out, &chars_of(r.message.as_str()), Style::Cyan, color);
    push_extras(out, &r.extras, color);
    assert(final(out)@ =~= old(out)@ + long_text(*r, color));
}

fn push_short(out: &mut Vec<char>, r: &LogRecord, color: bool)
    ensures
        final(out)@ == old(out)@ + short_text(*r, color),
{
    push_clock(out, &r.time);
    out.push('Z');
    out.push(' ');
    push_level(out, r.level, color);
    out.push(' ');
    push_all(out, &chars_of(r.name.as_str()));
    out.push(':');
    out.push(' ');
    push_styled(out, &chars_of(r.message.as_str()), Style::Cyan, color);
    push_extras(out, &r.extras, color);
    assert(final(out)@ =~= old(out)@ + short_text(*r, color));
}

/// Rendering depends on the record's contents, the format and the color switch
/// alone: rendering the same record twice in the same format gives identical
/// text, and so do two records with equal contents.
pub proof fn lemma_render_idempotent(r1: LogRecord, r2: LogRecord, f: Format, color: bool)
    requires
        r1.version == r2.version,
        r1.name@ == r2.name@,
        r1.message@ == r2.message@,
        r1.level == r2.level,
        r1.hostname@ == r2.hostname@,
        r1.process_identifier == r2.process_identifier,
        r1.time == r2.time,
        r1.extras@ == r2.extras@,
    ensures
        rendered(r1, f, color) == rendered(r2, f, color),
{
    assert(fixed_members(r1) == fixed_members(r2));
}

proof fn lemma_fixed_one_line(f: Seq<(Seq<char>, Seq<char>)>)
    requires
        forall|i: int| 0 <= i < f.len() ==> one_line(#[trigger] f[i].1),
    ensures
        one_line(fixed_text(f, seq![])),
    decreases f.len(),
{
    let e = Seq::<char>::empty();
    if f.len() > 0 {
        lemma_fixed_one_line(f.drop_last());
        assert(f.last() == f[f.len() - 1]);
        lemma_quoted_one_line(f.last().0);
        let a = fixed_text(f.drop_last(), e);
        let m = member_sep(f.len() - 1, e, e);
        assert(one_line(m));
        assert(one_line(key_sep(e)));
        lemma_one_line_concat(a, m);
        lemma_one_line_concat(a + m, quoted(f.last().0));
        lemma_one_line_concat(a + m + quoted(f.last().0), key_sep(e));
        lemma_one_line_concat(a + m + quoted(f.last().0) + key_sep(e), f.last().1);
    }
}

proof fn lemma_trailing_one_line(m: Seq<(String, JsonValue)>)
    requires
        members_wf(m),
    ensures
        one_line(trailing_members_text(m, seq![], seq![])),
    decreases m.len(),
{
    let e = Seq::<char>::empty();
    if m.len() > 0 {
        lemma_trailing_one_line(m.drop_last());
        lemma_compact_one_line(m.last().1);
        lemma_quoted_one_line(m.last().0@);
        let a = trailing_members_text(m.drop_last(), e, e);
        let c = seq![','] + line_break(e, e);
        assert(one_line(c));
        assert(one_line(key_sep(e)));
        lemma_one_line_concat(a, c);
        lemma_one_line_concat(a + c, quoted(m.last().0@));
        lemma_one_line_concat(a + c + quoted(m.last().0@), key_sep(e));
        lemma_one_line_concat(a + c + quoted(m.last().0@) + key_sep(e), json_text(m.last().1, e, e));
        assert(a + seq![','] + line_break(e, e) =~= a + c);
    }
}

/// The shape of the JSON formats: the compact form (`Bunyan`, `JsonN(0)`) is one
/// line of JSON followed by exactly one newline; the pretty forms start with `{`
/// and end at the closing `}`, with no newline after it.
pub proof fn lemma_json_form_shape(r: LogRecord, w: u8, color: bool)
    requires
        r.wf(),
    ensures
        rendered(r, Format::Bunyan, color) == record_json_text(r, seq![]).push('\n'),
        one_line(record_json_text(r, seq![])),
        rendered(r, Format::JsonN(0), color) == rendered(r, Format::Bunyan, color),
        w >= 1 ==> rendered(r, Format::JsonN(w), color)[0] == '{' && rendered(
            r,
            Format::JsonN(w),
            color,
        ).last() == '}',
        rendered(r, Format::Json, color)[0] == '{' && rendered(r, Format::Json, color).last() == '}',
{
    let e = Seq::<char>::empty();
    let f = fixed_members(r);
    lemma_decimal_one_line(r.version as nat);
    lemma_decimal_one_line(r.level as nat);
    lemma_decimal_one_line(r.process_identifier as nat);
    lemma_quoted_one_line(r.name@);
    lemma_quoted_one_line(r.message@);
    lemma_quoted_one_line(r.hostname@);
    lemma_quoted_one_line(rfc3339(r.time));
    assert forall|i: int| 0 <= i < f.len() implies one_line(#[trigger] f[i].1) by {}
    lemma_fixed_one_line(f);
    lemma_trailing_one_line(r.extras@);
    let x = fixed_text(f, e);
    let y = trailing_members_text(r.extras@, e, e);
    lemma_one_line_concat(seq!['{'], x);
    lemma_one_line_concat(seq!['{'] + x, y);
    assert(line_break(e, e) =~= e);
    lemma_one_line_concat(seq!['{'] + x + y + line_break(e, e), seq!['}']);
}

impl LogRecord {
    /// Clears `log` and writes this record into it in format `format`.
    pub fn format(&self, format: &Format, color: bool, log: &mut String)
        ensures
            final(log)@ == rendered(*self, *format, color),
    {
        let mut out: Vec<char> = Vec::new();
        match format {
            Format::Long => {
                push_long(&mut out, self, color);
            },
            Format::Short => {
                push_short(&mut out, self, color);
            },
            _ => {
                let width: u8 = match format {
                    Format::Json => 2,
                    Format::JsonN(n) => if *n > 10 {
                        10
                    } else {
                        *n
                    },
                    _ => 0,
                };
                push_json_form(&mut out, self, width);
            },
        }
        assert(out@ =~= rendered(*self, *format, color));
        *log = string_of(&out);
    }
}

} // verus!
