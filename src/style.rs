//! The output formats.
use vstd::prelude::*;
use crate::text::{chars_of, push_str, same_chars, string_of};

verus! {

/// Supported output formats.
#[derive(Clone, Copy, Debug, PartialEq, Eq, Structural)]
pub enum Format {
    /// Verbose, styled lines.
    Long,
    /// Concise, styled lines.
    Short,
    /// Pretty JSON with a two-space indent.
    Json,
    /// Pretty JSON with an indent of the given width (clamped to 1..=10; below 1
    /// it is the compact form).
    JsonN(u8),
    /// Compact one-line JSON.
    Bunyan,
}

/// The indent width that a JSON format uses, 0 meaning compact; `None` for the
/// line formats.
pub open spec fn json_width(f: Format) -> Option<nat> {
    match f {
        Format::Json => Some(2),
        Format::JsonN(n) => if n == 0 {
            Some(0)
        } else if n <= 10 {
            Some(n as nat)
        } else {
            Some(10)
        },
        Format::Bunyan => Some(0),
        _ => None,
    }
}

/// What `str::to_lowercase` makes of `s`.
pub uninterp spec fn lower_of(s: Seq<char>) -> Seq<char>;

/// Relies on `str::to_lowercase`: the result depends on the characters of `s` alone.
#[verifier::external_body]
fn lowercase(s: &str) -> (r: String)
    ensures
        r@ == lower_of(s@),
{
    s.to_lowercase()
}

/// The value of a run of decimal digits.
pub open spec fn digits_value(s: Seq<char>) -> int
    decreases s.len(),
{
    if s.len() == 0 {
        0
    } else {
        10 * digits_value(s.drop_last()) + (s.last() as int - '0' as int)
    }
}

/// Whether every character of `s` is a decimal digit.
pub open spec fn all_digits(s: Seq<char>) -> bool {
    forall|i: int| 0 <= i < s.len() ==> '0' <= #[trigger] s[i] <= '9'
}

/// A `u8` written in decimal, as std reads it: an optional `+`, then at least one
/// digit, with a value of at most 255.
pub open spec fn u8_text(s: Seq<char>) -> Option<u8> {
    let d = if s.len() > 0 && s[0] == '+' {
        s.skip(1)
    } else {
        s
    };
    if d.len() > 0 && all_digits(d) && digits_value(d) <= 255 {
        Some(digits_value(d) as u8)
    } else {
        None
    }
}

/// An indent width written in decimal: an optional `+`, then at least one digit,
/// of any size.
pub open spec fn width_text(s: Seq<char>) -> Option<nat> {
    let d = if s.len() > 0 && s[0] == '+' {
        s.skip(1)
    } else {
        s
    };
    if d.len() > 0 && all_digits(d) {
        Some(digits_value(d) as nat)
    } else {
        None
    }
}

/// Whether every character of `s` is ASCII.
pub open spec fn all_ascii(s: Seq<char>) -> bool {
    forall|i: int| 0 <= i < s.len() ==> (#[trigger] s[i] as u32) < 128
}

/// The format that a lowercased name selects: `long`, `short`, `json`, `bunyan`,
/// or `json-N` with N any decimal number: 0 is `bunyan`, above 10 is 10.
pub open spec fn format_of_lower(t: Seq<char>) -> Option<Format> {
    if t == seq!['l', 'o', 'n', 'g'] {
        Some(Format::Long)
    } else if t == seq!['s', 'h', 'o', 'r', 't'] {
        Some(Format::Short)
    } else if t == seq!['j', 's', 'o', 'n'] {
        Some(Format::Json)
    } else if t == seq!['b', 'u', 'n', 'y', 'a', 'n'] {
        Some(Format::Bunyan)
    } else if all_ascii(t) && t.len() >= 5 && t.take(5) == seq!['j', 's', 'o', 'n', '-'] {
        match width_text(t.skip(5)) {
            Some(n) => if n < 1 {
                Some(Format::Bunyan)
            } else if n <= 10 {
                Some(Format::JsonN(n as u8))
            } else {
                Some(Format::JsonN(10))
            },
            None => None,
        }
    } else {
        None
    }
}

/// Reads the `u8` written in `t[from..]` (see `u8_text`).
fn read_u8(t: &Vec<char>, from: usize) -> (r: Option<u8>)
    requires
        from <= t@.len(),
    ensures
        r == u8_text(t@.skip(from as int)),
{
    let ghost s = t@.skip(from as int);
    let mut i: usize = from;
    if i < t.len() && t[i] == '+' {
        i = i + 1;
    }
    let ghost d = t@.skip(i as int);
    assert(d =~= (if s.len() > 0 && s[0] == '+' { s.skip(1) } else { s }));
    if i >= t.len() {
        return None;
    }
    let start = i;
    let mut value: u32 = 0;
    while i < t.len()
        invariant
            start <= i <= t@.len(),
            d == t@.skip(start as int),
            s == t@.skip(from as int),
            d == (if s.len() > 0 && s[0] == '+' { s.skip(1) } else { s }),
            d.len() > 0,
            value as int == digits_value(t@.subrange(start as int, i as int)),
            value <= 255,
            all_digits(t@.subrange(start as int, i as int)),
        decreases t@.len() - i,
    {
        let c = t[i];
        let ghost prev = t@.subrange(start as int, i as int);
        let ghost next = t@.subrange(start as int, i + 1);
        proof {
            assert(next.drop_last() =~= prev);
            assert(next.last() == c);
        }
        if c < '0' || c > '9' {
            assert(d[i - start] == c);
            assert(!('0' <= d[i - start] <= '9'));
            return None;
        }
        assert(all_digits(next)) by {
            assert forall|j: int| 0 <= j < next.len() implies '0' <= #[trigger] next[j] <= '9' by {
                if j < prev.len() {
                    assert(next[j] == prev[j]);
                }
            }
        }
        assert(digits_value(next) == 10 * digits_value(prev) + (c as int - '0' as int));
        value = value * 10 + (c as u32 - '0' as u32);
        if value > 255 {
            proof {
                assert(next =~= d.take(next.len() as int));
                lemma_digits_grow(next, d);
            }
            return None;
        }
        i = i + 1;
    }
    assert(t@.subrange(start as int, i as int) =~= d);
    Some(value as u8)
}

/// Reads the width written in `t[from..]` (see `width_text`), with every value
/// above 10 read as 11.
fn read_width(t: &Vec<char>, from: usize) -> (r: Option<u32>)
    requires
        from <= t@.len(),
    ensures
        r matches Some(n) ==> width_text(t@.skip(from as int)) is Some && n as int == (if width_text(
            t@.skip(from as int),
        ).unwrap() > 10 {
            11
        } else {
            width_text(t@.skip(from as int)).unwrap() as int
        }),
        r is None ==> width_text(t@.skip(from as int)) is None,
{
    let ghost s = t@.skip(from as int);
    let mut i: usize = from;
    if i < t.len() && t[i] == '+' {
        i = i + 1;
    }
    let ghost d = t@.skip(i as int);
    assert(d =~= (if s.len() > 0 && s[0] == '+' { s.skip(1) } else { s }));
    if i >= t.len() {
        return None;
    }
    let start = i;
    let mut value: u32 = 0;
    while i < t.len()
        invariant
            start <= i <= t@.len(),
            d == t@.skip(start as int),
            s == t@.skip(from as int),
            d == (if s.len() > 0 && s[0] == '+' { s.skip(1) } else { s }),
            d.len() > 0,
            all_digits(t@.subrange(start as int, i as int)),
            digits_value(t@.subrange(start as int, i as int)) >= 0,
            value as int == (if digits_value(t@.subrange(start as int, i as int)) > 10 {
                11
            } else {
                digits_value(t@.subrange(start as int, i as int))
            }),
        decreases t@.len() - i,
    {
        let c = t[i];
        let ghost prev = t@.subrange(start as int, i as int);
        let ghost next = t@.subrange(start as int, i + 1);
        proof {
            assert(next.drop_last() =~= prev);
            assert(next.last() == c);
        }
        if c < '0' || c > '9' {
            assert(d[i - start] == c);
            assert(!('0' <= d[i - start] <= '9'));
            return None;
        }
        assert(all_digits(next)) by {
            assert forall|j: int| 0 <= j < next.len() implies '0' <= #[trigger] next[j] <= '9' by {
                if j < prev.len() {
                    assert(next[j] == prev[j]);
                }
            }
        }
        assert(digits_value(next) == 10 * digits_value(prev) + (c as int - '0' as int));
        value = value * 10 + (c as u32 - '0' as u32);
        if value > 10 {
            value = 11;
        }
        i = i + 1;
    }
    assert(t@.subrange(start as int, i as int) =~= d);
    Some(value)
}

/// A run of digits is worth at least as much as any prefix of it.
proof fn lemma_digits_grow(p: Seq<char>, s: Seq<char>)
    requires
        p.len() <= s.len(),
        p == s.take(p.len() as int),
        all_digits(p),
    ensures
        all_digits(s) ==> digits_value(s) >= digits_value(p),
    decreases s.len(),
{
    if all_digits(s) && s.len() > p.len() {
        assert(s.drop_last().take(p.len() as int) =~= p);
        assert(all_digits(s.drop_last()));
        lemma_digits_grow(p, s.drop_last());
        lemma_digits_nonneg(s.drop_last());
    } else if s.len() == p.len() {
        assert(p =~= s);
    }
}

proof fn lemma_digits_nonneg(s: Seq<char>)
    requires
        all_digits(s),
    ensures
        digits_value(s) >= 0,
    decreases s.len(),
{
    if s.len() > 0 {
        assert(all_digits(s.drop_last()));
        lemma_digits_nonneg(s.drop_last());
    }
}

/// Whether every character of `t` is ASCII.
fn ascii_only(t: &Vec<char>) -> (r: bool)
    ensures
        r == all_ascii(t@),
{
    let mut i: usize = 0;
    while i < t.len()
        invariant
            i <= t@.len(),
            forall|j: int| 0 <= j < i ==> (#[trigger] t@[j] as u32) < 128,
        decreases t@.len() - i,
    {
        if t[i] as u32 >= 128 {
            return false;
        }
        i = i + 1;
    }
    true
}

/// The format that a lowercased name selects (see `format_of_lower`).
pub fn format_from_lower(t: &str) -> (r: Option<Format>)
    ensures
        r == format_of_lower(t@),
{
    let cs = chars_of(t);
    let long: Vec<char> = vec!['l', 'o', 'n', 'g'];
    let short: Vec<char> = vec!['s', 'h', 'o', 'r', 't'];
    let json: Vec<char> = vec!['j', 's', 'o', 'n'];
    let bunyan: Vec<char> = vec!['b', 'u', 'n', 'y', 'a', 'n'];
    let prefix: Vec<char> = vec!['j', 's', 'o', 'n', '-'];
    assert(long@ =~= seq!['l', 'o', 'n', 'g'] && short@ =~= seq!['s', 'h', 'o', 'r', 't']);
    assert(json@ =~= seq!['j', 's', 'o', 'n'] && bunyan@ =~= seq!['b', 'u', 'n', 'y', 'a', 'n']);
    assert(prefix@ =~= seq!['j', 's', 'o', 'n', '-']);
    if same_chars(&cs, &long) {
        return Some(Format::Long);
    }
    if same_chars(&cs, &short) {
        return Some(Format::Short);
    }
    if same_chars(&cs, &json) {
        return Some(Format::Json);
    }
    if same_chars(&cs, &bunyan) {
        return Some(Format::Bunyan);
    }
    if !ascii_only(&cs) || cs.len() < 5 {
        return None;
    }
    let mut head: Vec<char> = Vec::new();
    let mut i: usize = 0;
    while i < 5
        invariant
            i <= 5,
            5 <= cs@.len(),
            head@ == cs@.take(i as int),
        decreases 5 - i,
    {
        head.push(cs[i]);
        i = i + 1;
        assert(head@ =~= cs@.take(i as int));
    }
    if !same_chars(&head, &prefix) {
        return None;
    }
    match read_width(&cs, 5) {
        Some(n) => if n < 1 {
            Some(Format::Bunyan)
        } else if n <= 10 {
            Some(Format::JsonN(n as u8))
        } else {
            Some(Format::JsonN(10))
        },
        None => None,
    }
}

/// A format name that selects no format.
#[derive(Clone, Debug)]
pub struct InvalidFormat {
    /// The lowercased name.
    pub value: String,
}

/// The text before the name in the error message.
pub open spec fn invalid_prefix() -> Seq<char> {
    seq![
        'I', 'n', 'v', 'a', 'l', 'i', 'd', ' ', 'f', 'o', 'r', 'm', 'a', 't', ' ', 'v', 'a', 'l', 'u',
        'e', ':', ' ', '\'',
    ]
}

impl InvalidFormat {
    /// `Invalid format value: '<name>'`.
    pub fn message(&self) -> (r: String)
        ensures
            r@ == invalid_prefix() + self.value@ + seq!['\''],
    {
        let mut out: Vec<char> = Vec::new();
        push_str(&mut out, "Invalid format value: '");
        proof {
            reveal_strlit("Invalid format value: '");
        }
        push_str(&mut out, self.value.as_str());
        out.push('\'');
        assert(out@ =~= invalid_prefix() + self.value@ + seq!['\'']);
        string_of(&out)
    }
}

/// Reads an output format name, in any letter case; an unknown name is an error
/// that carries the lowercased name.
pub fn format_from_str(s: &str) -> (r: Result<Format, InvalidFormat>)
    ensures
        r matches Ok(f) ==> format_of_lower(lower_of(s@)) == Some(f),
        r matches Err(e) ==> format_of_lower(lower_of(s@)) is None && e.value@ == lower_of(s@),
{
    let t = lowercase(s);
    match format_from_lower(t.as_str()) {
        Some(f) => Ok(f),
        None => Err(InvalidFormat { value: t }),
    }
}

impl std::str::FromStr for Format {
    type Err = InvalidFormat;

    fn from_str(s: &str) -> Result<Format, InvalidFormat> {
        format_from_str(s)
    }
}

/// Reads an output format name, in any letter case (see `format_of_lower`).
pub fn parse_format(s: &str) -> (r: Option<Format>)
    ensures
        r == format_of_lower(lower_of(s@)),
{
    let t = lowercase(s);
    format_from_lower(t.as_str())
}

/// The threshold that a lowercased level argument selects: a level name, or a
/// `u8` in decimal.
pub open spec fn threshold_of_lower(t: Seq<char>) -> Option<u8> {
    if t == seq!['t', 'r', 'a', 'c', 'e'] {
        Some(10)
    } else if t == seq!['d', 'e', 'b', 'u', 'g'] {
        Some(20)
    } else if t == seq!['i', 'n', 'f', 'o'] {
        Some(30)
    } else if t == seq!['w', 'a', 'r', 'n'] {
        Some(40)
    } else if t == seq!['e', 'r', 'r', 'o', 'r'] {
        Some(50)
    } else if t == seq!['f', 'a', 't', 'a', 'l'] {
        Some(60)
    } else {
        u8_text(t)
    }
}

/// Reads a level threshold argument: a level name in any letter case, or a number.
pub fn parse_level_threshold(s: &str) -> (r: Option<u8>)
    ensures
        r == threshold_of_lower(lower_of(s@)),
{
    let t = lowercase(s);
    let cs = chars_of(t.as_str());
    let trace: Vec<char> = vec!['t', 'r', 'a', 'c', 'e'];
    let debug: Vec<char> = vec!['d', 'e', 'b', 'u', 'g'];
    let info: Vec<char> = vec!['i', 'n', 'f', 'o'];
    let warn: Vec<char> = vec!['w', 'a', 'r', 'n'];
    let error: Vec<char> = vec!['e', 'r', 'r', 'o', 'r'];
    let fatal: Vec<char> = vec!['f', 'a', 't', 'a', 'l'];
    assert(trace@ =~= seq!['t', 'r', 'a', 'c', 'e'] && debug@ =~= seq!['d', 'e', 'b', 'u', 'g']);
    assert(info@ =~= seq!['i', 'n', 'f', 'o'] && warn@ =~= seq!['w', 'a', 'r', 'n']);
    assert(error@ =~= seq!['e', 'r', 'r', 'o', 'r'] && fatal@ =~= seq!['f', 'a', 't', 'a', 'l']);
    if same_chars(&cs, &trace) {
        return Some(10);
    }
    if same_chars(&cs, &debug) {
        return Some(20);
    }
    if same_chars(&cs, &info) {
        return Some(30);
    }
    if same_chars(&cs, &warn) {
        return Some(40);
    }
    if same_chars(&cs, &error) {
        return Some(50);
    }
    if same_chars(&cs, &fatal) {
        return Some(60);
    }
    assert(cs@.skip(0) =~= cs@);
    read_u8(&cs, 0)
}

} // verus!
