//! Decoding a JSON object into a log record: every fixed field must be present
//! with the right type, and all other members become the extras.
use vstd::prelude::*;
use crate::json::{JsonValue, json_wf, keys_distinct, members_wf, json_text, members_text, member_sep, line_break};
use crate::record::{LogRecord, fixed_members, fixed_text, trailing_members_text, record_json_text, rendered};
use crate::style::Format;
use crate::text::{chars_of, same_chars};
use crate::time::{Timestamp, parsed_timestamp, parse_timestamp, rfc3339};

verus! {

pub open spec fn key_v() -> Seq<char> { seq!['v'] }
pub open spec fn key_name() -> Seq<char> { seq!['n', 'a', 'm', 'e'] }
pub open spec fn key_msg() -> Seq<char> { seq!['m', 's', 'g'] }
pub open spec fn key_level() -> Seq<char> { seq!['l', 'e', 'v', 'e', 'l'] }
pub open spec fn key_hostname() -> Seq<char> { seq!['h', 'o', 's', 't', 'n', 'a', 'm', 'e'] }
pub open spec fn key_pid() -> Seq<char> { seq!['p', 'i', 'd'] }
pub open spec fn key_time() -> Seq<char> { seq!['t', 'i', 'm', 'e'] }

/// Whether `k` names one of the fixed record fields.
pub open spec fn is_fixed_key(k: Seq<char>) -> bool {
    k == key_v() || k == key_name() || k == key_msg() || k == key_level() || k == key_hostname()
        || k == key_pid() || k == key_time()
}

/// The value of the last member of `ms` with key `k`.
pub open spec fn field(ms: Seq<(String, JsonValue)>, k: Seq<char>) -> Option<JsonValue>
    decreases ms.len(),
{
    if ms.len() == 0 {
        None
    } else if ms.last().0@ == k {
        Some(ms.last().1)
    } else {
        field(ms.drop_last(), k)
    }
}

/// The members of `ms` whose keys are not fixed fields, in order.
pub open spec fn extra_members(ms: Seq<(String, JsonValue)>) -> Seq<(String, JsonValue)>
    decreases ms.len(),
{
    if ms.len() == 0 {
        seq![]
    } else if is_fixed_key(ms.last().0@) {
        extra_members(ms.drop_last())
    } else {
        extra_members(ms.drop_last()).push(ms.last())
    }
}

/// A non-negative integer value no greater than `max`.
pub open spec fn uint_field(v: Option<JsonValue>, max: u64) -> Option<u64> {
    match v {
        Some(JsonValue::UInt(n)) => if n <= max {
            Some(n)
        } else {
            None
        },
        _ => None,
    }
}

/// A string value.
pub open spec fn text_field(v: Option<JsonValue>) -> Option<Seq<char>> {
    match v {
        Some(JsonValue::Str(s)) => Some(s@),
        _ => None,
    }
}

/// A string value that parses as a timestamp.
pub open spec fn time_field(v: Option<JsonValue>) -> Option<Timestamp> {
    match v {
        Some(JsonValue::Str(s)) => parsed_timestamp(s@),
        _ => None,
    }
}

/// Whether the members `ms` hold every fixed field with the right type.
pub open spec fn members_decode(ms: Seq<(String, JsonValue)>) -> bool {
    &&& uint_field(field(ms, key_v()), 255) is Some
    &&& text_field(field(ms, key_name())) is Some
    &&& text_field(field(ms, key_msg())) is Some
    &&& uint_field(field(ms, key_level()), 255) is Some
    &&& text_field(field(ms, key_hostname())) is Some
    &&& uint_field(field(ms, key_pid()), 0xffff_ffff) is Some
    &&& time_field(field(ms, key_time())) is Some
}

/// Whether `v` is an object that decodes as a record.
pub open spec fn decodes(v: JsonValue) -> bool {
    v is Object && members_decode(v->Object_0@)
}

/// Whether `r` is the record that the members `ms` decode to.
pub open spec fn members_decode_to(ms: Seq<(String, JsonValue)>, r: LogRecord) -> bool {
    &&& members_decode(ms)
    &&& r.version as u64 == uint_field(field(ms, key_v()), 255).unwrap()
    &&& r.name@ == text_field(field(ms, key_name())).unwrap()
    &&& r.message@ == text_field(field(ms, key_msg())).unwrap()
    &&& r.level as u64 == uint_field(field(ms, key_level()), 255).unwrap()
    &&& r.hostname@ == text_field(field(ms, key_hostname())).unwrap()
    &&& r.process_identifier as u64 == uint_field(field(ms, key_pid()), 0xffff_ffff).unwrap()
    &&& r.time == time_field(field(ms, key_time())).unwrap()
    &&& r.extras@ == extra_members(ms)
}

/// Whether `r` is the record that `v` decodes to.
pub open spec fn decodes_to(v: JsonValue, r: LogRecord) -> bool {
    v is Object && members_decode_to(v->Object_0@, r)
}

/// Which fixed field a key names: 0 to 6 in declared order, 7 for none.
fn key_slot(k: &String) -> (r: u8)
    ensures
        r <= 7,
        r == 0 <==> k@ == key_v(),
        r == 1 <==> k@ == key_name(),
        r == 2 <==> k@ == key_msg(),
        r == 3 <==> k@ == key_level(),
        r == 4 <==> k@ == key_hostname(),
        r == 5 <==> k@ == key_pid(),
        r == 6 <==> k@ == key_time(),
        r == 7 <==> !is_fixed_key(k@),
{
    let cs = chars_of(k.as_str());
    let v: Vec<char> = vec!['v'];
    let name: Vec<char> = vec!['n', 'a', 'm', 'e'];
    let msg: Vec<char> = vec!['m', 's', 'g'];
    let level: Vec<char> = vec!['l', 'e', 'v', 'e', 'l'];
    let hostname: Vec<char> = vec!['h', 'o', 's', 't', 'n', 'a', 'm', 'e'];
    let pid: Vec<char> = vec!['p', 'i', 'd'];
    let time: Vec<char> = vec!['t', 'i', 'm', 'e'];
    assert(v@ =~= key_v() && name@ =~= key_name() && msg@ =~= key_msg() && level@ =~= key_level());
    assert(hostname@ =~= key_hostname() && pid@ =~= key_pid() && time@ =~= key_time());
    assert(key_v() != key_name() && key_name() != key_msg() && key_msg() != key_level());
    assert(key_level() != key_hostname() && key_hostname() != key_pid() && key_pid() != key_time());
    assert(key_name() != key_time() && key_name() != key_hostname() && key_name()[0] != key_pid()[0]);
    if same_chars(&cs, &v) {
        0
    } else if same_chars(&cs, &name) {
        1
    } else if same_chars(&cs, &msg) {
        2
    } else if same_chars(&cs, &level) {
        3
    } else if same_chars(&cs, &hostname) {
        4
    } else if same_chars(&cs, &pid) {
        5
    } else if same_chars(&cs, &time) {
        6
    } else {
        7
    }
}

proof fn lemma_prefix_step(ms: Seq<(String, JsonValue)>, i: int)
    requires
        0 <= i < ms.len(),
    ensures
        ms.take(i + 1).drop_last() == ms.take(i),
        ms.take(i + 1).last() == ms[i],
        forall|k: Seq<char>|
            #[trigger] field(ms.take(i + 1), k) == if ms[i].0@ == k {
                Some(ms[i].1)
            } else {
                field(ms.take(i), k)
            },
        extra_members(ms.take(i + 1)) == if is_fixed_key(ms[i].0@) {
            extra_members(ms.take(i))
        } else {
            extra_members(ms.take(i)).push(ms[i])
        },
{
    assert(ms.take(i + 1).drop_last() =~= ms.take(i));
}

/// Reads a non-negative integer no greater than `max`.
fn read_uint(v: &Option<JsonValue>, max: u64) -> (r: Option<u64>)
    ensures
        r == uint_field(*v, max),
{
    match v {
        Some(JsonValue::UInt(n)) => if *n <= max {
            Some(*n)
        } else {
            None
        },
        _ => None,
    }
}

/// Takes a string value out.
fn read_text(v: Option<JsonValue>) -> (r: Option<String>)
    ensures
        r matches Some(s) ==> text_field(v) == Some(s@),
        r is None ==> text_field(v) is None,
{
    match v {
        Some(JsonValue::Str(s)) => Some(s),
        _ => None,
    }
}

/// Reads a timestamp string.
fn read_time(v: &Option<JsonValue>) -> (r: Option<Timestamp>)
    ensures
        r == time_field(*v),
        r matches Some(t) ==> t.wf(),
{
    match v {
        Some(JsonValue::Str(s)) => parse_timestamp(s.as_str()),
        _ => None,
    }
}

/// Decodes a JSON value as a log record. It succeeds exactly when the value is an
/// object holding every fixed field with the right type (`decodes`); the record
/// then has those fields, and every other member, in order, as its extras.
pub fn decode_record(v: JsonValue) -> (r: Option<LogRecord>)
    ensures
        r is Some <==> decodes(v),
        r matches Some(rec) ==> decodes_to(v, rec) && rec.time.wf(),
        r matches Some(rec) ==> (json_wf(v) ==> rec.wf()),
{
    proof {
        if v is Object {
            lemma_extras_not_fixed(v->Object_0@);
            lemma_extras_from_members(v->Object_0@);
        }
    }
    let ghost v0 = v;
    let mut ms = match v {
        JsonValue::Object(ms) => ms,
        _ => {
            return None;
        },
    };
    let ghost orig = ms@;
    let mut s_v: Option<JsonValue> = None;
    let mut s_name: Option<JsonValue> = None;
    let mut s_msg: Option<JsonValue> = None;
    let mut s_level: Option<JsonValue> = None;
    let mut s_host: Option<JsonValue> = None;
    let mut s_pid: Option<JsonValue> = None;
    let mut s_time: Option<JsonValue> = None;
    let mut extras: Vec<(String, JsonValue)> = Vec::new();
    let ghost mut i: int = 0;
    while ms.len() > 0
        invariant
            0 <= i <= orig.len(),
            ms@ == orig.skip(i),
            s_v == field(orig.take(i), key_v()),
            s_name == field(orig.take(i), key_name()),
            s_msg == field(orig.take(i), key_msg()),
            s_level == field(orig.take(i), key_level()),
            s_host == field(orig.take(i), key_hostname()),
            s_pid == field(orig.take(i), key_pid()),
            s_time == field(orig.take(i), key_time()),
            extras@ == extra_members(orig.take(i)),
        decreases ms@.len(),
    {
        let (k, val) = ms.remove(0);
        proof {
            assert(orig.skip(i)[0] == orig[i]);
            lemma_prefix_step(orig, i);
        }
        let slot = key_slot(&k);
        if slot == 0 {
            s_v = Some(val);
        } else if slot == 1 {
            s_name = Some(val);
        } else if slot == 2 {
            s_msg = Some(val);
        } else if slot == 3 {
            s_level = Some(val);
        } else if slot == 4 {
            s_host = Some(val);
        } else if slot == 5 {
            s_pid = Some(val);
        } else if slot == 6 {
            s_time = Some(val);
        } else {
            extras.push((k, val));
        }
        proof {
            assert(ms@ =~= orig.skip(i + 1));
            i = i + 1;
        }
    }
    assert(orig.take(i) =~= orig);
    let version = match read_uint(&s_v, 255) {
        Some(n) => n as u8,
        None => {
            return None;
        },
    };
    let level = match read_uint(&s_level, 255) {
        Some(n) => n as u8,
        None => {
            return None;
        },
    };
    let pid = match read_uint(&s_pid, 0xffff_ffff) {
        Some(n) => n as u32,
        None => {
            return None;
        },
    };
    let time = match read_time(&s_time) {
        Some(t) => t,
        None => {
            return None;
        },
    };
    let name = match read_text(s_name) {
        Some(s) => s,
        None => {
            return None;
        },
    };
    let message = match read_text(s_msg) {
        Some(s) => s,
        None => {
            return None;
        },
    };
    let hostname = match read_text(s_host) {
        Some(s) => s,
        None => {
            return None;
        },
    };
    Some(
        LogRecord {
            version,
            name,
            message,
            level,
            hostname,
            process_identifier: pid,
            time,
            extras,
        },
    )
}

/// Whether `v` is the JSON object that the JSON formats write for `r`: the fixed
/// members in declared order, then the extras.
pub open spec fn is_encoding(v: JsonValue, r: LogRecord) -> bool {
    v is Object && {
        let ms = v->Object_0@;
        &&& ms.len() == 7 + r.extras@.len()
        &&& ms[0].0@ == key_v() && ms[0].1 == JsonValue::UInt(r.version as u64)
        &&& ms[1].0@ == key_name() && ms[1].1 is Str && ms[1].1->Str_0@ == r.name@
        &&& ms[2].0@ == key_msg() && ms[2].1 is Str && ms[2].1->Str_0@ == r.message@
        &&& ms[3].0@ == key_level() && ms[3].1 == JsonValue::UInt(r.level as u64)
        &&& ms[4].0@ == key_hostname() && ms[4].1 is Str && ms[4].1->Str_0@ == r.hostname@
        &&& ms[5].0@ == key_pid() && ms[5].1 == JsonValue::UInt(r.process_identifier as u64)
        &&& ms[6].0@ == key_time() && ms[6].1 is Str && ms[6].1->Str_0@ == rfc3339(r.time)
        &&& ms.skip(7) == r.extras@
    }
}

proof fn lemma_keys_distinct()
    ensures
        key_v() != key_name() && key_v() != key_msg() && key_v() != key_level(),
        key_v() != key_hostname() && key_v() != key_pid() && key_v() != key_time(),
        key_name() != key_msg() && key_name() != key_level() && key_name() != key_hostname(),
        key_name() != key_pid() && key_name() != key_time(),
        key_msg() != key_level() && key_msg() != key_hostname() && key_msg() != key_pid(),
        key_msg() != key_time(),
        key_level() != key_hostname() && key_level() != key_pid() && key_level() != key_time(),
        key_hostname() != key_pid() && key_hostname() != key_time(),
        key_pid() != key_time(),
{
    assert(key_name()[0] != key_time()[0]);
    assert(key_msg()[0] != key_pid()[0]);
}

/// The members after the first `n` hold no fixed key, so every fixed field is
/// found among the first `n`.
proof fn lemma_field_in_prefix(ms: Seq<(String, JsonValue)>, n: int, k: Seq<char>)
    requires
        0 <= n <= ms.len(),
        is_fixed_key(k),
        forall|j: int| n <= j < ms.len() ==> !is_fixed_key(#[trigger] ms[j].0@),
    ensures
        field(ms, k) == field(ms.take(n), k),
    decreases ms.len(),
{
    if ms.len() > n {
        assert(!is_fixed_key(ms[ms.len() - 1].0@));
        assert(ms.drop_last().take(n) =~= ms.take(n));
        lemma_field_in_prefix(ms.drop_last(), n, k);
    } else {
        assert(ms.take(n) =~= ms);
    }
}

/// The extras that follow the first `n` members, when those are all fixed.
proof fn lemma_extras_after_prefix(ms: Seq<(String, JsonValue)>, n: int, i: int)
    requires
        0 <= n <= ms.len(),
        0 <= i <= ms.len(),
        forall|j: int| 0 <= j < n ==> is_fixed_key(#[trigger] ms[j].0@),
        forall|j: int| n <= j < ms.len() ==> !is_fixed_key(#[trigger] ms[j].0@),
    ensures
        i <= n ==> extra_members(ms.take(i)) == Seq::<(String, JsonValue)>::empty(),
        i >= n ==> extra_members(ms.take(i)) == ms.subrange(n, i),
    decreases i,
{
    if i == 0 {
        assert(ms.take(0) =~= Seq::<(String, JsonValue)>::empty());
        if n == 0 {
            assert(ms.subrange(n, i) =~= Seq::<(String, JsonValue)>::empty());
        }
    } else {
        lemma_prefix_step(ms, i - 1);
        lemma_extras_after_prefix(ms, n, i - 1);
        if i <= n {
        } else if i - 1 == n {
            assert(ms.subrange(n, i) =~= Seq::<(String, JsonValue)>::empty().push(ms[n]));
        } else {
            assert(ms.subrange(n, i) =~= ms.subrange(n, i - 1).push(ms[i - 1]));
        }
    }
}

/// Every extra member is a member, and a well-formed member list with distinct
/// keys gives extras that are well formed with distinct keys.
proof fn lemma_extras_from_members(ms: Seq<(String, JsonValue)>)
    ensures
        forall|i: int|
            0 <= i < extra_members(ms).len() ==> exists|k: int|
                0 <= k < ms.len() && #[trigger] extra_members(ms)[i] == ms[k],
        keys_distinct(ms) ==> keys_distinct(extra_members(ms)),
        members_wf(ms) ==> members_wf(extra_members(ms)),
    decreases ms.len(),
{
    if ms.len() > 0 {
        let init = ms.drop_last();
        let prev = extra_members(init);
        lemma_extras_from_members(init);
        assert forall|i: int| 0 <= i < prev.len() implies exists|k: int|
            0 <= k < ms.len() && #[trigger] prev[i] == ms[k] by {
            let k = choose|k: int| 0 <= k < init.len() && prev[i] == init[k];
            assert(init[k] == ms[k]);
        }
        if keys_distinct(ms) {
            assert(keys_distinct(init)) by {
                assert forall|i: int, j: int| 0 <= i < j < init.len() implies (#[trigger] init[i]).0@
                    != (#[trigger] init[j]).0@ by {
                    assert(init[i] == ms[i] && init[j] == ms[j]);
                }
            }
        }
        if !is_fixed_key(ms.last().0@) {
            let e = prev.push(ms.last());
            assert forall|i: int| 0 <= i < e.len() implies exists|k: int|
                0 <= k < ms.len() && #[trigger] e[i] == ms[k] by {
                if i < prev.len() {
                    assert(e[i] == prev[i]);
                } else {
                    assert(e[i] == ms[ms.len() - 1]);
                }
            }
            if keys_distinct(ms) {
                assert forall|i: int, j: int| 0 <= i < j < e.len() implies (#[trigger] e[i]).0@
                    != (#[trigger] e[j]).0@ by {
                    assert(e[i] == prev[i]);
                    let k = choose|k: int| 0 <= k < init.len() && prev[i] == init[k];
                    assert(init[k] == ms[k]);
                    if j == prev.len() {
                        assert(e[j] == ms[ms.len() - 1]);
                        assert(ms[k].0@ != ms[ms.len() - 1].0@);
                    } else {
                        assert(e[j] == prev[j]);
                    }
                }
            }
            if members_wf(ms) {
                assert(e.drop_last() =~= prev);
            }
        }
    }
}

/// No member of `extra_members(ms)` has a fixed key.
proof fn lemma_extras_not_fixed(ms: Seq<(String, JsonValue)>)
    ensures
        forall|j: int|
            0 <= j < extra_members(ms).len() ==> !is_fixed_key(#[trigger] extra_members(ms)[j].0@),
    decreases ms.len(),
{
    if ms.len() > 0 {
        let prev = extra_members(ms.drop_last());
        lemma_extras_not_fixed(ms.drop_last());
        if !is_fixed_key(ms.last().0@) {
            assert forall|j: int| 0 <= j < prev.len() + 1 implies !is_fixed_key(
                #[trigger] prev.push(ms.last())[j].0@,
            ) by {
                if j < prev.len() {
                    assert(prev.push(ms.last())[j] == prev[j]);
                }
            }
        }
    }
}

/// The members text of an encoding, up to member `i`, is the record's fixed text
/// followed by the extras text.
#[verifier::rlimit(50)]
proof fn lemma_encoding_members_text(v: JsonValue, r: LogRecord, unit: Seq<char>, i: int)
    requires
        is_encoding(v, r),
        0 <= i <= v->Object_0@.len(),
    ensures
        i <= 7 ==> members_text(v->Object_0@.take(i), unit, unit) == fixed_text(
            fixed_members(r).take(i),
            unit,
        ),
        i >= 7 ==> members_text(v->Object_0@.take(i), unit, unit) == fixed_text(
            fixed_members(r),
            unit,
        ) + trailing_members_text(r.extras@.take(i - 7), unit, unit),
    decreases i,
{
    let ms = v->Object_0@;
    let f = fixed_members(r);
    if i == 0 {
        assert(ms.take(0) =~= Seq::<(String, JsonValue)>::empty());
        assert(f.take(0) =~= Seq::<(Seq<char>, Seq<char>)>::empty());
    } else {
        lemma_encoding_members_text(v, r, unit, i - 1);
        assert(ms.take(i).drop_last() =~= ms.take(i - 1));
        assert(ms.take(i).last() == ms[i - 1]);
        if i <= 7 {
            assert(f.take(i).drop_last() =~= f.take(i - 1));
            assert(f.take(i).last() == f[i - 1]);
            assert(json_text(ms[i - 1].1, unit, unit) == f[i - 1].1);
            assert(ms[i - 1].0@ == f[i - 1].0);
            if i == 7 {
                assert(f.take(7) =~= f);
                assert(r.extras@.take(0) =~= Seq::<(String, JsonValue)>::empty());
            }
        } else {
            let e = r.extras@;
            assert(e.take(i - 7).drop_last() =~= e.take(i - 8));
            assert(e[i - 8] == ms.skip(7)[i - 8]);
            assert(member_sep(i - 1, unit, unit) == seq![','] + line_break(unit, unit));
        }
    }
}

/// Round trip: the object that the JSON formats write for a record decodes to
/// that same record, and its compact text is exactly the `Bunyan` rendering.
/// This holds for every record whose timestamp text reads back as the same
/// timestamp.
pub proof fn lemma_round_trip(v: JsonValue, r: LogRecord, color: bool)
    requires
        r.wf(),
        is_encoding(v, r),
        parsed_timestamp(rfc3339(r.time)) == Some(r.time),
    ensures
        decodes(v),
        decodes_to(v, r),
        rendered(r, Format::Bunyan, color) == json_text(v, seq![], seq![]).push('\n'),
{
    let ms = v->Object_0@;
    lemma_keys_distinct();
    assert forall|j: int| 7 <= j < ms.len() implies !is_fixed_key(#[trigger] ms[j].0@) by {
        assert(ms[j] == r.extras@[j - 7]);
    }
    assert forall|j: int| 0 <= j < 7 implies is_fixed_key(#[trigger] ms[j].0@) by {}
    assert(ms.take(0) =~= Seq::<(String, JsonValue)>::empty());
    lemma_prefix_step(ms, 0);
    lemma_prefix_step(ms, 1);
    lemma_prefix_step(ms, 2);
    lemma_prefix_step(ms, 3);
    lemma_prefix_step(ms, 4);
    lemma_prefix_step(ms, 5);
    lemma_prefix_step(ms, 6);
    lemma_field_in_prefix(ms, 7, key_v());
    lemma_field_in_prefix(ms, 7, key_name());
    lemma_field_in_prefix(ms, 7, key_msg());
    lemma_field_in_prefix(ms, 7, key_level());
    lemma_field_in_prefix(ms, 7, key_hostname());
    lemma_field_in_prefix(ms, 7, key_pid());
    lemma_field_in_prefix(ms, 7, key_time());
    lemma_extras_after_prefix(ms, 7, ms.len() as int);
    assert(ms.take(ms.len() as int) =~= ms);
    assert(ms.subrange(7, ms.len() as int) =~= ms.skip(7));
    lemma_encoding_members_text(v, r, seq![], ms.len() as int);
    assert(r.extras@.take(ms.len() - 7) =~= r.extras@);
}

} // verus!
