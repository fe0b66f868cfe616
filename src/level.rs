//! Severity levels, the level filter, and styled text.
use vstd::prelude::*;
use crate::text::{decimal, push_decimal, push_all, string_of};

verus! {

/// The six severities that have a name.
#[derive(Clone, Copy, Debug, PartialEq, Eq, Structural)]
pub enum NamedLogLevel {
    Trace,
    Debug,
    Info,
    Warn,
    Error,
    Fatal,
}

/// The named severity whose value is exactly `raw`, if any.
pub open spec fn named_level_of(raw: u8) -> Option<NamedLogLevel> {
    if raw == 10 {
        Some(NamedLogLevel::Trace)
    } else if raw == 20 {
        Some(NamedLogLevel::Debug)
    } else if raw == 30 {
        Some(NamedLogLevel::Info)
    } else if raw == 40 {
        Some(NamedLogLevel::Warn)
    } else if raw == 50 {
        Some(NamedLogLevel::Error)
    } else if raw == 60 {
        Some(NamedLogLevel::Fatal)
    } else {
        None
    }
}

/// Looks up the named severity for a raw level; only exact values match.
pub fn named_level(raw: u8) -> (r: Option<NamedLogLevel>)
    ensures
        r == named_level_of(raw),
{
    if raw == 10 {
        Some(NamedLogLevel::Trace)
    } else if raw == 20 {
        Some(NamedLogLevel::Debug)
    } else if raw == 30 {
        Some(NamedLogLevel::Info)
    } else if raw == 40 {
        Some(NamedLogLevel::Warn)
    } else if raw == 50 {
        Some(NamedLogLevel::Error)
    } else if raw == 60 {
        Some(NamedLogLevel::Fatal)
    } else {
        None
    }
}

/// Whether a record of level `raw` is shown under the threshold `threshold`.
pub open spec fn passes_filter_spec(raw: u8, threshold: u8) -> bool {
    raw >= threshold
}

/// A record is shown exactly when its level is at least the threshold.
pub fn passes_filter(raw: u8, threshold: u8) -> (r: bool)
    ensures
        r == passes_filter_spec(raw, threshold),
        r == (raw >= threshold),
{
    raw >= threshold
}

/// A visual style for a piece of terminal text.
#[derive(Clone, Copy, Debug, PartialEq, Eq, Structural)]
pub enum Style {
    Bold,
    Reversed,
    Red,
    Yellow,
    Magenta,
    Cyan,
    White,
}

/// The SGR parameter of a style.
pub open spec fn style_code(st: Style) -> Seq<char> {
    match st {
        Style::Bold => seq!['1'],
        Style::Reversed => seq!['7'],
        Style::Red => seq!['3', '1'],
        Style::Yellow => seq!['3', '3'],
        Style::Magenta => seq!['3', '5'],
        Style::Cyan => seq!['3', '6'],
        Style::White => seq!['3', '7'],
    }
}

/// The reset sequence that ends styled text.
pub open spec fn reset_seq() -> Seq<char> {
    seq!['\x1b', '[', '0', 'm']
}

/// The escape sequence that starts text in style `st`.
pub open spec fn style_prefix(st: Style) -> Seq<char> {
    seq!['\x1b', '['] + style_code(st) + seq!['m']
}

/// Whether `t` ends with a reset sequence.
pub open spec fn ends_with_reset(t: Seq<char>) -> bool {
    t.len() >= 4 && t.subrange(t.len() - 4, t.len() as int) == reset_seq()
}

/// `t` with the style prefix `p` put back after every reset sequence in it.
pub open spec fn restyled(t: Seq<char>, p: Seq<char>) -> Seq<char>
    decreases t.len(),
{
    if t.len() == 0 {
        seq![]
    } else if ends_with_reset(t) {
        restyled(t.take(t.len() - 4), p) + reset_seq() + p
    } else {
        restyled(t.drop_last(), p).push(t.last())
    }
}

/// `text` in style `st`: when `color` is on, the style's escape sequence, the
/// text with the style put back after each reset inside it, and a reset; when it
/// is off, the text unchanged.
pub open spec fn styled(text: Seq<char>, st: Style, color: bool) -> Seq<char> {
    if color {
        style_prefix(st) + restyled(text, style_prefix(st)) + reset_seq()
    } else {
        text
    }
}

/// Whether a reset sequence starts at `j` in `t`.
pub open spec fn reset_at(t: Seq<char>, j: int) -> bool {
    0 <= j && j + 4 <= t.len() && t.subrange(j, j + 4) == reset_seq()
}

/// Appends `restyled(text@, p@)`.
fn push_restyled(out: &mut Vec<char>, text: &Vec<char>, p: &Vec<char>)
    ensures
        final(out)@ == old(out)@ + restyled(text@, p@),
{
    let ghost t = text@;
    let ghost start = out@;
    let n = text.len();
    let mut i: usize = 0;
    assert(t.take(0) =~= Seq::<char>::empty());
    while i < n
        invariant
            n == t.len(),
            t == text@,
            i <= n,
            out@ == start + restyled(t.take(i as int), p@),
            forall|j: int| i - 3 <= j < i ==> !reset_at(t, j),
        decreases n - i,
    {
        if n - i >= 4 && text[i] == '\x1b' && text[i + 1] == '[' && text[i + 2] == '0' && text[i
            + 3] == 'm' {
            out.push('\x1b');
            out.push('[');
            out.push('0');
            out.push('m');
            push_all(out, p);
            proof {
                let u = t.take(i + 4);
                assert(u.subrange(u.len() - 4, u.len() as int) =~= reset_seq());
                assert(u.take(u.len() - 4) =~= t.take(i as int));
                assert(out@ =~= start + restyled(u, p@));
                assert forall|j: int| i + 1 <= j < i + 4 implies !reset_at(t, j) by {
                    if reset_at(t, j) {
                        assert(t.subrange(j, j + 4)[0] == t[j]);
                    }
                }
            }
            i = i + 4;
        } else {
            let c = text[i];
            out.push(c);
            proof {
                assert(!reset_at(t, i as int)) by {
                    if reset_at(t, i as int) {
                        assert(t.subrange(i as int, i + 4)[0] == t[i as int]);
                        assert(t.subrange(i as int, i + 4)[1] == t[i + 1]);
                        assert(t.subrange(i as int, i + 4)[2] == t[i + 2]);
                        assert(t.subrange(i as int, i + 4)[3] == t[i + 3]);
                    }
                }
                let u = t.take(i + 1);
                assert(!ends_with_reset(u)) by {
                    if ends_with_reset(u) {
                        assert(t.subrange(i - 3, i + 1) =~= u.subrange(u.len() - 4, u.len() as int));
                        assert(reset_at(t, i - 3));
                    }
                }
                assert(u.drop_last() =~= t.take(i as int));
                assert(out@ =~= start + restyled(u, p@));
            }
            i = i + 1;
        }
    }
    assert(t.take(i as int) =~= t);
}

/// Appends `text` in style `st`.
pub fn push_styled(out: &mut Vec<char>, text: &Vec<char>, st: Style, color: bool)
    ensures
        final(out)@ == old(out)@ + styled(text@, st, color),
{
    if color {
        let mut pre: Vec<char> = Vec::new();
        pre.push('\x1b');
        pre.push('[');
        match st {
            Style::Bold => {
                pre.push('1');
            },
            Style::Reversed => {
                pre.push('7');
            },
            Style::Red => {
                pre.push('3');
                pre.push('1');
            },
            Style::Yellow => {
                pre.push('3');
                pre.push('3');
            },
            Style::Magenta => {
                pre.push('3');
                pre.push('5');
            },
            Style::Cyan => {
                pre.push('3');
                pre.push('6');
            },
            Style::White => {
                pre.push('3');
                pre.push('7');
            },
        }
        pre.push('m');
        assert(pre@ =~= style_prefix(st));
        push_all(out, &pre);
        push_restyled(out, text, &pre);
        out.push('\x1b');
        out.push('[');
        out.push('0');
        out.push('m');
    } else {
        push_all(out, text);
    }
    assert(final(out)@ =~= old(out)@ + styled(text@, st, color));
}

/// The five-character label of a named level and its style.
pub open spec fn level_label(l: NamedLogLevel) -> (Seq<char>, Style) {
    match l {
        NamedLogLevel::Fatal => (seq!['F', 'A', 'T', 'A', 'L'], Style::Reversed),
        NamedLogLevel::Error => (seq!['E', 'R', 'R', 'O', 'R'], Style::Red),
        NamedLogLevel::Warn => (seq![' ', 'W', 'A', 'R', 'N'], Style::Magenta),
        NamedLogLevel::Info => (seq![' ', 'I', 'N', 'F', 'O'], Style::Cyan),
        NamedLogLevel::Debug => (seq!['D', 'E', 'B', 'U', 'G'], Style::Yellow),
        NamedLogLevel::Trace => (seq!['T', 'R', 'A', 'C', 'E'], Style::White),
    }
}

/// The rendered level token: the styled label of a named level, else `LVL`
/// followed by the raw value, unstyled.
pub open spec fn level_token(raw: u8, color: bool) -> Seq<char> {
    match named_level_of(raw) {
        Some(l) => styled(level_label(l).0, level_label(l).1, color),
        None => seq!['L', 'V', 'L'] + decimal(raw as nat),
    }
}

/// Appends the rendered level token.
pub fn push_level(out: &mut Vec<char>, level: u8, color: bool)
    ensures
        final(out)@ == old(out)@ + level_token(level, color),
{
    match named_level(level) {
        Some(l) => {
            let (label, st): (Vec<char>, Style) = match l {
                NamedLogLevel::Fatal => (vec!['F', 'A', 'T', 'A', 'L'], Style::Reversed),
                NamedLogLevel::Error => (vec!['E', 'R', 'R', 'O', 'R'], Style::Red),
                NamedLogLevel::Warn => (vec![' ', 'W', 'A', 'R', 'N'], Style::Magenta),
                NamedLogLevel::Info => (vec![' ', 'I', 'N', 'F', 'O'], Style::Cyan),
                NamedLogLevel::Debug => (vec!['D', 'E', 'B', 'U', 'G'], Style::Yellow),
                NamedLogLevel::Trace => (vec!['T', 'R', 'A', 'C', 'E'], Style::White),
            };
            assert(label@ == level_label(l).0);
            push_styled(out, &label, st, color);
        },
        None => {
            out.push('L');
            out.push('V');
            out.push('L');
            push_decimal(out, level as u64);
            assert(final(out)@ =~= old(out)@ + level_token(level, color));
        },
    }
}

/// The rendered level token of `level` (see `level_token`).
pub fn format_level(level: u8, color: bool) -> (r: String)
    ensures
        r@ == level_token(level, color),
{
    let mut out: Vec<char> = Vec::new();
    push_level(&mut out, level, color);
    assert(out@ =~= level_token(level, color));
    string_of(&out)
}

/// Every named level renders, without color, as one of the six fixed
/// five-character labels; every other value renders as `LVL` and its decimal value.
pub proof fn lemma_level_tokens(raw: u8)
    ensures
        raw == 10 ==> level_token(raw, false) == seq!['T', 'R', 'A', 'C', 'E'],
        raw == 20 ==> level_token(raw, false) == seq!['D', 'E', 'B', 'U', 'G'],
        raw == 30 ==> level_token(raw, false) == seq![' ', 'I', 'N', 'F', 'O'],
        raw == 40 ==> level_token(raw, false) == seq![' ', 'W', 'A', 'R', 'N'],
        raw == 50 ==> level_token(raw, false) == seq!['E', 'R', 'R', 'O', 'R'],
        raw == 60 ==> level_token(raw, false) == seq!['F', 'A', 'T', 'A', 'L'],
        named_level_of(raw) is Some ==> level_token(raw, false).len() == 5,
        named_level_of(raw) is None ==> level_token(raw, false) == seq!['L', 'V', 'L'] + decimal(
            raw as nat,
        ),
{
}

} // verus!
