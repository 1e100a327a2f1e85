//! Canonical encoding: every value and record has exactly one wire text.
//!
//! No whitespace, record labels in their (ascending) stored order, floats
//! as their shortest round-trip text, and the envelope fields of a record
//! in fixed order: `schema_version`, `tool`, `args`, `result`,
//! `timestamp`, `caller`, then `meta` when present.
use vstd::prelude::*;

use crate::wire::grammar::{lemma_str_lt_trans, str_lt};
use crate::wire::schema::chars_lt;
use crate::wire::text::{chars_of,
    enc_string, int_text, push_char, push_chars, write_int, write_string,
};
use crate::wire::value::{
    fields_v, lemma_fields_v, lemma_meta_fields_v, lemma_metas_v, lemma_vals_v, meta_fields_v,
    metas_v, vals_v, InvocationRecord, Meta, MetaValue, ResultV, RecordV, ToolResult, Val,
    WireValue,
};

verus! {

/// The wire-format version this implementation writes and accepts.
pub const SCHEMA_VERSION: u32 = 1;

/// Why a value or record could not be encoded.
#[derive(Debug, PartialEq, Eq)]
pub enum EncodeError {
    /// A float was NaN or infinite.
    NonFiniteFloat,
    /// A timestamp was not RFC 3339 UTC with millisecond precision.
    BadTimestamp(String),
}

// ── the canonical text, as a function of the value ──────────────

/// Whether a float's text denotes a finite number: it is none of the
/// renderings of NaN and the infinities.
pub open spec fn float_finite(t: Seq<char>) -> bool {
    !(t == seq!['N', 'a', 'N'] || t == seq!['i', 'n', 'f'] || t == seq!['-', 'i', 'n', 'f'])
}

/// Whether every float inside `v` is finite.
pub open spec fn val_ok(v: Val) -> bool
    decreases v, 1nat,
{
    match v {
        Val::Float(t) => float_finite(t),
        Val::List(items) => vals_ok(items),
        Val::Tuple(items) => vals_ok(items),
        Val::Record(fs) => fields_ok(fs),
        Val::Ctor(_, args) => vals_ok(args),
        _ => true,
    }
}

/// Whether every float inside every value of `s` is finite.
pub open spec fn vals_ok(s: Seq<Val>) -> bool
    decreases s, 0nat,
{
    s.len() == 0 || (vals_ok(s.drop_last()) && val_ok(s.last()))
}

/// Whether every float inside every field value of `s` is finite.
pub open spec fn fields_ok(s: Seq<(Seq<char>, Val)>) -> bool
    decreases s, 0nat,
{
    s.len() == 0 || (fields_ok(s.drop_last()) && val_ok(s.last().1))
}

// ── well-formed values ──────────────────────────────────────────

/// Whether the labels of `fs` are strictly ascending (so also distinct).
pub open spec fn labels_ascending(fs: Seq<(Seq<char>, Val)>) -> bool {
    forall|i: int, j: int| 0 <= i < j < fs.len() ==> str_lt(#[trigger] fs[i].0, #[trigger] fs[j].0)
}

/// Whether every record inside `v` has strictly ascending labels, as a
/// record's labels are kept.
pub open spec fn val_wf(v: Val) -> bool
    decreases v, 1nat,
{
    match v {
        Val::List(items) => vals_wf(items),
        Val::Tuple(items) => vals_wf(items),
        Val::Record(fs) => labels_ascending(fs) && fields_wf(fs),
        Val::Ctor(_, args) => vals_wf(args),
        _ => true,
    }
}

/// Whether every value of `s` is well formed.
pub open spec fn vals_wf(s: Seq<Val>) -> bool
    decreases s, 0nat,
{
    s.len() == 0 || (vals_wf(s.drop_last()) && val_wf(s.last()))
}

/// Whether every field value of `s` is well formed.
pub open spec fn fields_wf(s: Seq<(Seq<char>, Val)>) -> bool
    decreases s, 0nat,
{
    s.len() == 0 || (fields_wf(s.drop_last()) && val_wf(s.last().1))
}

/// Whether the keys of `fs` are strictly ascending (so also distinct).
pub open spec fn keys_ascending(fs: Seq<(Seq<char>, Meta)>) -> bool {
    forall|i: int, j: int| 0 <= i < j < fs.len() ==> str_lt(#[trigger] fs[i].0, #[trigger] fs[j].0)
}

/// Whether every object inside `m` has strictly ascending keys, as an
/// object's keys are kept.
pub open spec fn meta_wf(m: Meta) -> bool
    decreases m, 1nat,
{
    match m {
        Meta::Array(items) => metas_wf(items),
        Meta::Object(fs) => keys_ascending(fs) && meta_fields_wf(fs),
        _ => true,
    }
}

/// Whether every meta value of `s` is well formed.
pub open spec fn metas_wf(s: Seq<Meta>) -> bool
    decreases s, 0nat,
{
    s.len() == 0 || (metas_wf(s.drop_last()) && meta_wf(s.last()))
}

/// Whether every member value of `s` is well formed.
pub open spec fn meta_fields_wf(s: Seq<(Seq<char>, Meta)>) -> bool
    decreases s, 0nat,
{
    s.len() == 0 || (meta_fields_wf(s.drop_last()) && meta_wf(s.last().1))
}

/// Whether a record is well formed: its args, its result's value and its
/// `meta` object, when present.
pub open spec fn record_wf(r: RecordV) -> bool {
    &&& val_wf(r.args)
    &&& val_wf(result_val(r.result))
    &&& r.meta matches Some(m) ==> keys_ascending(m) && meta_fields_wf(m)
}

impl InvocationRecord {
    /// Whether the record's args, result value and `meta` object are well
    /// formed: every record's labels and every object's keys ascending.
    pub fn is_well_formed(&self) -> (r: bool)
        ensures
            r == record_wf(self@),
    {
        let a = self.args.is_well_formed();
        let b = match &self.result {
            ToolResult::Success(v) => v.is_well_formed(),
            ToolResult::Failure(v) => v.is_well_formed(),
        };
        let c = match &self.meta {
            Some(m) => {
                let k = keys_in_order(m);
                let f = meta_fields_well_formed(m);
                k && f
            },
            None => true,
        };
        a && b && c
    }
}

impl MetaValue {
    /// Whether every object inside the value has strictly ascending keys.
    pub fn is_well_formed(&self) -> (r: bool)
        ensures
            r == meta_wf(self@),
        decreases self, 1nat,
    {
        match self {
            MetaValue::Array(items) => all_meta_well_formed(items),
            MetaValue::Object(fs) => {
                let a = keys_in_order(fs);
                let b = meta_fields_well_formed(fs);
                a && b
            },
            _ => true,
        }
    }
}

/// Whether every meta value of `items` is well formed.
fn all_meta_well_formed(items: &Vec<MetaValue>) -> (r: bool)
    ensures
        r == metas_wf(metas_v(items@)),
    decreases items, 0nat,
{
    let ghost s = metas_v(items@);
    proof {
        lemma_metas_v(items@);
        assert(s.take(0) =~= Seq::<Meta>::empty());
    }
    let mut ok = true;
    let mut i: usize = 0;
    while i < items.len()
        invariant
            i <= items@.len(),
            s == metas_v(items@),
            s.len() == items@.len(),
            forall|j: int| 0 <= j < items@.len() ==> #[trigger] s[j] == items@[j]@,
            ok == metas_wf(s.take(i as int)),
        decreases items@.len() - i,
    {
        assert(items@[i as int] == items[i as int]);
        let w = items[i].is_well_formed();
        proof {
            assert(s.take(i + 1).drop_last() =~= s.take(i as int));
            assert(s.take(i + 1).last() == s[i as int]);
        }
        ok = ok && w;
        i = i + 1;
    }
    assert(s.take(i as int) =~= s);
    ok
}

/// Whether every member value of `fs` is well formed.
fn meta_fields_well_formed(fs: &Vec<(String, MetaValue)>) -> (r: bool)
    ensures
        r == meta_fields_wf(meta_fields_v(fs@)),
    decreases fs, 0nat,
{
    let ghost s = meta_fields_v(fs@);
    proof {
        lemma_meta_fields_v(fs@);
        assert(s.take(0) =~= Seq::<(Seq<char>, Meta)>::empty());
    }
    let mut ok = true;
    let mut i: usize = 0;
    while i < fs.len()
        invariant
            i <= fs@.len(),
            s == meta_fields_v(fs@),
            s.len() == fs@.len(),
            forall|j: int| 0 <= j < fs@.len() ==> #[trigger] s[j] == (fs@[j].0@, fs@[j].1@),
            ok == meta_fields_wf(s.take(i as int)),
        decreases fs@.len() - i,
    {
        assert(fs@[i as int].1 == fs[i as int].1);
        let w = fs[i].1.is_well_formed();
        proof {
            assert(s.take(i + 1).drop_last() =~= s.take(i as int));
            assert(s.take(i + 1).last() == s[i as int]);
        }
        ok = ok && w;
        i = i + 1;
    }
    assert(s.take(i as int) =~= s);
    ok
}

/// Whether the keys of `fs` are strictly ascending.
fn keys_in_order(fs: &Vec<(String, MetaValue)>) -> (r: bool)
    ensures
        r == keys_ascending(meta_fields_v(fs@)),
{
    let ghost s = meta_fields_v(fs@);
    proof {
        lemma_meta_fields_v(fs@);
    }
    let mut i: usize = 1;
    while i < fs.len()
        invariant
            1 <= i,
            s == meta_fields_v(fs@),
            s.len() == fs@.len(),
            forall|j: int| 0 <= j < fs@.len() ==> #[trigger] s[j] == (fs@[j].0@, fs@[j].1@),
            forall|a: int, b: int| 0 <= a < b < i && b < s.len() ==> str_lt(#[trigger] s[a].0, #[trigger] s[b].0),
        decreases fs@.len() - i,
    {
        let x = chars_of(fs[i - 1].0.as_str());
        let y = chars_of(fs[i].0.as_str());
        if !chars_lt(x.as_slice(), y.as_slice()) {
            proof {
                assert(s[i - 1].0 == fs@[i - 1].0@);
                assert(s[i as int].0 == fs@[i as int].0@);
            }
            return false;
        }
        proof {
            assert(s[i - 1].0 == fs@[i - 1].0@);
            assert(s[i as int].0 == fs@[i as int].0@);
            assert forall|a: int, b: int| 0 <= a < b < i + 1 && b < s.len() implies str_lt(#[trigger] s[a].0, #[trigger] s[b].0) by {
                if b == i && a < i - 1 {
                    lemma_str_lt_trans(s[a].0, s[i - 1].0, s[b].0);
                }
            }
        }
        i = i + 1;
    }
    true
}

impl WireValue {
    /// Whether every record inside the value has strictly ascending labels.
    pub fn is_well_formed(&self) -> (r: bool)
        ensures
            r == val_wf(self@),
        decreases self, 1nat,
    {
        match self {
            WireValue::List(items) => all_well_formed(items),
            WireValue::Tuple(items) => all_well_formed(items),
            WireValue::Record(fs) => {
                let a = labels_in_order(fs);
                let b = fields_well_formed(fs);
                a && b
            },
            WireValue::Ctor(_, args) => all_well_formed(args),
            _ => true,
        }
    }
}

/// Whether every value of `items` is well formed.
fn all_well_formed(items: &Vec<WireValue>) -> (r: bool)
    ensures
        r == vals_wf(vals_v(items@)),
    decreases items, 0nat,
{
    let ghost s = vals_v(items@);
    proof {
        lemma_vals_v(items@);
        assert(s.take(0) =~= Seq::<Val>::empty());
    }
    let mut ok = true;
    let mut i: usize = 0;
    while i < items.len()
        invariant
            i <= items@.len(),
            s == vals_v(items@),
            s.len() == items@.len(),
            forall|j: int| 0 <= j < items@.len() ==> #[trigger] s[j] == items@[j]@,
            ok == vals_wf(s.take(i as int)),
        decreases items@.len() - i,
    {
        assert(items@[i as int] == items[i as int]);
        let w = items[i].is_well_formed();
        proof {
            assert(s.take(i + 1).drop_last() =~= s.take(i as int));
            assert(s.take(i + 1).last() == s[i as int]);
        }
        ok = ok && w;
        i = i + 1;
    }
    assert(s.take(i as int) =~= s);
    ok
}

/// Whether every field value of `fs` is well formed.
fn fields_well_formed(fs: &Vec<(String, WireValue)>) -> (r: bool)
    ensures
        r == fields_wf(fields_v(fs@)),
    decreases fs, 0nat,
{
    let ghost s = fields_v(fs@);
    proof {
        lemma_fields_v(fs@);
        assert(s.take(0) =~= Seq::<(Seq<char>, Val)>::empty());
    }
    let mut ok = true;
    let mut i: usize = 0;
    while i < fs.len()
        invariant
            i <= fs@.len(),
            s == fields_v(fs@),
            s.len() == fs@.len(),
            forall|j: int| 0 <= j < fs@.len() ==> #[trigger] s[j] == (fs@[j].0@, fs@[j].1@),
            ok == fields_wf(s.take(i as int)),
        decreases fs@.len() - i,
    {
        assert(fs@[i as int].1 == fs[i as int].1);
        let w = fs[i].1.is_well_formed();
        proof {
            assert(s.take(i + 1).drop_last() =~= s.take(i as int));
            assert(s.take(i + 1).last() == s[i as int]);
        }
        ok = ok && w;
        i = i + 1;
    }
    assert(s.take(i as int) =~= s);
    ok
}

/// Whether the labels of `fs` are strictly ascending.
fn labels_in_order(fs: &Vec<(String, WireValue)>) -> (r: bool)
    ensures
        r == labels_ascending(fields_v(fs@)),
{
    let ghost s = fields_v(fs@);
    proof {
        lemma_fields_v(fs@);
    }
    let mut i: usize = 1;
    while i < fs.len()
        invariant
            1 <= i,
            s == fields_v(fs@),
            s.len() == fs@.len(),
            forall|j: int| 0 <= j < fs@.len() ==> #[trigger] s[j] == (fs@[j].0@, fs@[j].1@),
            forall|a: int, b: int| 0 <= a < b < i && b < s.len() ==> str_lt(#[trigger] s[a].0, #[trigger] s[b].0),
        decreases fs@.len() - i,
    {
        let x = chars_of(fs[i - 1].0.as_str());
        let y = chars_of(fs[i].0.as_str());
        if !chars_lt(x.as_slice(), y.as_slice()) {
            proof {
                assert(s[i - 1].0 == fs@[i - 1].0@);
                assert(s[i as int].0 == fs@[i as int].0@);
            }
            return false;
        }
        proof {
            assert(s[i - 1].0 == fs@[i - 1].0@);
            assert(s[i as int].0 == fs@[i as int].0@);
            assert forall|a: int, b: int| 0 <= a < b < i + 1 && b < s.len() implies str_lt(#[trigger] s[a].0, #[trigger] s[b].0) by {
                if b == i && a < i - 1 {
                    lemma_str_lt_trans(s[a].0, s[i - 1].0, s[b].0);
                }
            }
        }
        i = i + 1;
    }
    true
}

/// The canonical text of a value.
pub open spec fn enc_value(v: Val) -> Seq<char>
    decreases v, 1nat,
{
    match v {
        Val::Unit => seq!['n', 'u', 'l', 'l'],
        Val::Int(i) => int_text(i as int),
        Val::Float(t) => t,
        Val::Str(s) => enc_string(s),
        Val::List(items) => seq!['['] + enc_list(items) + seq![']'],
        Val::Tuple(items) => seq!['['] + enc_list(items) + seq![']'],
        Val::Record(fs) => seq!['{'] + enc_fields(fs) + seq!['}'],
        Val::Ctor(n, args) => seq!['{', '"', 'c', 't', 'o', 'r', '"', ':'] + enc_string(n) + seq![
            ',',
            '"',
            'a',
            'r',
            'g',
            's',
            '"',
            ':',
            '[',
        ] + enc_list(args) + seq![']', '}'],
    }
}

/// The texts of `s` joined by commas.
pub open spec fn enc_list(s: Seq<Val>) -> Seq<char>
    decreases s, 0nat,
{
    if s.len() == 0 {
        Seq::empty()
    } else if s.len() == 1 {
        enc_value(s[0])
    } else {
        enc_list(s.drop_last()) + seq![','] + enc_value(s.last())
    }
}

/// The `"label":value` texts of `s` joined by commas.
pub open spec fn enc_fields(s: Seq<(Seq<char>, Val)>) -> Seq<char>
    decreases s, 0nat,
{
    if s.len() == 0 {
        Seq::empty()
    } else if s.len() == 1 {
        enc_string(s[0].0) + seq![':'] + enc_value(s[0].1)
    } else {
        enc_fields(s.drop_last()) + seq![','] + enc_string(s.last().0) + seq![':'] + enc_value(
            s.last().1,
        )
    }
}

/// Whether every float inside `m` is finite.
pub open spec fn meta_ok(m: Meta) -> bool
    decreases m, 1nat,
{
    match m {
        Meta::Float(t) => float_finite(t),
        Meta::Array(items) => metas_ok(items),
        Meta::Object(fs) => meta_fields_ok(fs),
        _ => true,
    }
}

/// Whether every float inside every value of `s` is finite.
pub open spec fn metas_ok(s: Seq<Meta>) -> bool
    decreases s, 0nat,
{
    s.len() == 0 || (metas_ok(s.drop_last()) && meta_ok(s.last()))
}

/// Whether every float inside every entry of `s` is finite.
pub open spec fn meta_fields_ok(s: Seq<(Seq<char>, Meta)>) -> bool
    decreases s, 0nat,
{
    s.len() == 0 || (meta_fields_ok(s.drop_last()) && meta_ok(s.last().1))
}

/// The canonical text of a meta value.
pub open spec fn enc_meta(m: Meta) -> Seq<char>
    decreases m, 1nat,
{
    match m {
        Meta::Null => seq!['n', 'u', 'l', 'l'],
        Meta::Bool(b) => if b {
            seq!['t', 'r', 'u', 'e']
        } else {
            seq!['f', 'a', 'l', 's', 'e']
        },
        Meta::Int(i) => int_text(i as int),
        Meta::Float(t) => t,
        Meta::Str(s) => enc_string(s),
        Meta::Array(items) => seq!['['] + enc_metas(items) + seq![']'],
        Meta::Object(fs) => enc_meta_object(fs),
    }
}

/// The texts of `s` joined by commas.
pub open spec fn enc_metas(s: Seq<Meta>) -> Seq<char>
    decreases s, 0nat,
{
    if s.len() == 0 {
        Seq::empty()
    } else if s.len() == 1 {
        enc_meta(s[0])
    } else {
        enc_metas(s.drop_last()) + seq![','] + enc_meta(s.last())
    }
}

/// The canonical text of a meta object.
pub open spec fn enc_meta_object(s: Seq<(Seq<char>, Meta)>) -> Seq<char>
    decreases s, 1nat,
{
    seq!['{'] + enc_meta_fields(s) + seq!['}']
}

/// The `"key":value` texts of `s` joined by commas.
pub open spec fn enc_meta_fields(s: Seq<(Seq<char>, Meta)>) -> Seq<char>
    decreases s, 0nat,
{
    if s.len() == 0 {
        Seq::empty()
    } else if s.len() == 1 {
        enc_string(s[0].0) + seq![':'] + enc_meta(s[0].1)
    } else {
        enc_meta_fields(s.drop_last()) + seq![','] + enc_string(s.last().0) + seq![':'] + enc_meta(
            s.last().1,
        )
    }
}

/// Whether `c` is an ASCII decimal digit.
pub open spec fn is_digit(c: char) -> bool {
    '0' <= c <= '9'
}

/// The value of the decimal digit `c`.
pub open spec fn digit_val(c: char) -> int {
    (c as u32) - ('0' as u32)
}

/// The value of the two digits at `i` and `i + 1`.
pub open spec fn two_digits(s: Seq<char>, i: int) -> int {
    10 * digit_val(s[i]) + digit_val(s[i + 1])
}

/// Whether `s` is an RFC 3339 UTC instant with millisecond precision:
/// `YYYY-MM-DDTHH:MM:SS.mmmZ`, with months 1–12, days 1–31 (not checked
/// against the month), hours below 24, and minutes and seconds below 60.
pub open spec fn valid_timestamp(s: Seq<char>) -> bool {
    &&& s.len() == 24
    &&& forall|i: int|
        0 <= i < 24 && i != 4 && i != 7 && i != 10 && i != 13 && i != 16 && i != 19 && i != 23
            ==> is_digit(#[trigger] s[i])
    &&& s[4] == '-' && s[7] == '-' && s[10] == 'T' && s[13] == ':' && s[16] == ':'
    &&& s[19] == '.' && s[23] == 'Z'
    &&& 1 <= two_digits(s, 5) <= 12
    &&& 1 <= two_digits(s, 8) <= 31
    &&& two_digits(s, 11) < 24
    &&& two_digits(s, 14) < 60
    &&& two_digits(s, 17) < 60
}

/// The decimal digit character for `n` below ten.
pub open spec fn digit_char(n: int) -> char {
    (n + 48) as char
}

/// The two-digit text of `n` below a hundred.
pub open spec fn two_text(n: int) -> Seq<char> {
    seq![digit_char(n / 10), digit_char(n % 10)]
}

/// The instant `YYYY-MM-DDTHH:MM:SS.mmmZ` with the year digits `year`,
/// the given month, day, hour, minute and second, and the millisecond
/// digits `ms`.
pub open spec fn instant_text(year: Seq<char>, month: int, day: int, hour: int, minute: int, second: int, ms: Seq<char>) -> Seq<char> {
    year + seq!['-'] + two_text(month) + seq!['-'] + two_text(day) + seq!['T'] + two_text(hour) + seq![':']
        + two_text(minute) + seq![':'] + two_text(second) + seq!['.'] + ms + seq!['Z']
}

/// A written-out instant is a valid timestamp exactly when its month is
/// 1–12, its day 1–31, its hour 0–23 and its minute and second 0–59,
/// whatever its year and milliseconds.
pub proof fn law_timestamp_fields(
    year: Seq<char>,
    month: int,
    day: int,
    hour: int,
    minute: int,
    second: int,
    ms: Seq<char>,
)
    requires
        year.len() == 4,
        ms.len() == 3,
        forall|i: int| 0 <= i < 4 ==> is_digit(#[trigger] year[i]),
        forall|i: int| 0 <= i < 3 ==> is_digit(#[trigger] ms[i]),
        0 <= month < 100,
        0 <= day < 100,
        0 <= hour < 100,
        0 <= minute < 100,
        0 <= second < 100,
    ensures
        valid_timestamp(instant_text(year, month, day, hour, minute, second, ms)) <==> (1 <= month <= 12
            && 1 <= day <= 31 && hour < 24 && minute < 60 && second < 60),
{
    let s = instant_text(year, month, day, hour, minute, second, ms);
    assert(s.len() == 24);
    assert forall|n: int| 0 <= n < 100 implies is_digit(#[trigger] two_text(n)[0]) && is_digit(two_text(n)[1])
        && 10 * digit_val(two_text(n)[0]) + digit_val(two_text(n)[1]) == n by {
        assert((n / 10 + 48) as char as u32 == n / 10 + 48);
        assert((n % 10 + 48) as char as u32 == n % 10 + 48);
    }
    assert(s[0] == year[0] && s[1] == year[1] && s[2] == year[2] && s[3] == year[3]);
    assert(s[5] == two_text(month)[0] && s[6] == two_text(month)[1]);
    assert(s[8] == two_text(day)[0] && s[9] == two_text(day)[1]);
    assert(s[11] == two_text(hour)[0] && s[12] == two_text(hour)[1]);
    assert(s[14] == two_text(minute)[0] && s[15] == two_text(minute)[1]);
    assert(s[17] == two_text(second)[0] && s[18] == two_text(second)[1]);
    assert(s[20] == ms[0] && s[21] == ms[1] && s[22] == ms[2]);
    assert(s[4] == '-' && s[7] == '-' && s[10] == 'T' && s[13] == ':' && s[16] == ':' && s[19] == '.' && s[23] == 'Z');
    assert(two_text(month)[0] == two_text(month)[0]);
    assert(two_digits(s, 5) == month);
    assert(two_digits(s, 8) == day);
    assert(two_digits(s, 11) == hour);
    assert(two_digits(s, 14) == minute);
    assert(two_digits(s, 17) == second);
}

/// The fixed head of a record line: `{"schema_version":1,"tool":`.
pub open spec fn head_text() -> Seq<char> {
    seq![
        '{', '"', 's', 'c', 'h', 'e', 'm', 'a', '_', 'v', 'e', 'r', 's', 'i', 'o', 'n', '"', ':',
        '1', ',', '"', 't', 'o', 'o', 'l', '"', ':',
    ]
}

/// The text `,"<key>":` for a key of the envelope.
pub open spec fn key_text(key: Seq<char>) -> Seq<char> {
    seq![',', '"'] + key + seq!['"', ':']
}

/// The canonical text of a tool result.
pub open spec fn enc_result(r: ResultV) -> Seq<char> {
    match r {
        ResultV::Success(v) => seq!['{', '"', 'o', 'k', '"', ':'] + enc_value(v) + seq!['}'],
        ResultV::Failure(v) => seq!['{', '"', 'e', 'r', 'r', '"', ':'] + enc_value(v) + seq!['}'],
    }
}

/// The value inside a tool result.
pub open spec fn result_val(r: ResultV) -> Val {
    match r {
        ResultV::Success(v) => v,
        ResultV::Failure(v) => v,
    }
}

/// The canonical line of a record (without a trailing newline).
pub open spec fn enc_record(r: RecordV) -> Seq<char> {
    head_text() + enc_string(r.tool) + key_text(seq!['a', 'r', 'g', 's']) + enc_value(r.args)
        + key_text(seq!['r', 'e', 's', 'u', 'l', 't']) + enc_result(r.result) + key_text(
        seq!['t', 'i', 'm', 'e', 's', 't', 'a', 'm', 'p'],
    ) + enc_string(r.timestamp) + key_text(seq!['c', 'a', 'l', 'l', 'e', 'r']) + enc_string(
        r.caller,
    ) + match r.meta {
        Some(m) => key_text(seq!['m', 'e', 't', 'a']) + enc_meta_object(m),
        None => Seq::empty(),
    } + seq!['}']
}

/// Whether every float of a record is finite.
pub open spec fn record_ok(r: RecordV) -> bool {
    &&& val_ok(r.args)
    &&& val_ok(result_val(r.result))
    &&& r.meta matches Some(m) ==> meta_fields_ok(m)
}

// ── writers ─────────────────────────────────────────────────────

/// Appends a float's text, failing when it denotes NaN or an infinity.
fn write_float(out: &mut String, t: &String) -> (r: Result<(), EncodeError>)
    ensures
        r is Ok <==> float_finite(t@),
        r matches Ok(_) ==> final(out)@ == old(out)@ + t@,
        r matches Err(e) ==> e == EncodeError::NonFiniteFloat,
{
    let cs = crate::wire::text::chars_of(t.as_str());
    let n = cs.len();
    let nan = n == 3 && cs[0] == 'N' && cs[1] == 'a' && cs[2] == 'N';
    let inf = n == 3 && cs[0] == 'i' && cs[1] == 'n' && cs[2] == 'f';
    let neg_inf = n == 4 && cs[0] == '-' && cs[1] == 'i' && cs[2] == 'n' && cs[3] == 'f';
    assert(nan <==> t@ == seq!['N', 'a', 'N']) by {
        if t@ == seq!['N', 'a', 'N'] {
            assert(cs@[0] == 'N' && cs@[1] == 'a' && cs@[2] == 'N');
        }
        if nan {
            assert(t@ =~= seq!['N', 'a', 'N']);
        }
    }
    assert(inf <==> t@ == seq!['i', 'n', 'f']) by {
        if t@ == seq!['i', 'n', 'f'] {
            assert(cs@[0] == 'i' && cs@[1] == 'n' && cs@[2] == 'f');
        }
        if inf {
            assert(t@ =~= seq!['i', 'n', 'f']);
        }
    }
    assert(neg_inf <==> t@ == seq!['-', 'i', 'n', 'f']) by {
        if t@ == seq!['-', 'i', 'n', 'f'] {
            assert(cs@[0] == '-' && cs@[1] == 'i' && cs@[2] == 'n' && cs@[3] == 'f');
        }
        if neg_inf {
            assert(t@ =~= seq!['-', 'i', 'n', 'f']);
        }
    }
    if nan || inf || neg_inf {
        return Err(EncodeError::NonFiniteFloat);
    }
    push_chars(out, cs.as_slice());
    Ok(())
}

/// Appends the canonical text of `v`.
fn write_value(out: &mut String, v: &WireValue) -> (r: Result<(), EncodeError>)
    ensures
        r is Ok <==> val_ok(v@),
        r matches Ok(_) ==> final(out)@ == old(out)@ + enc_value(v@),
        r matches Err(e) ==> e == EncodeError::NonFiniteFloat,
    decreases v, 1nat,
{
    match v {
        WireValue::Unit => {
            push_chars(out, &['n', 'u', 'l', 'l']);
            Ok(())
        },
        WireValue::Int(i) => {
            write_int(out, *i);
            Ok(())
        },
        WireValue::Float(t) => write_float(out, t),
        WireValue::String(s) => {
            write_string(out, s.as_str());
            Ok(())
        },
        WireValue::List(items) => {
            let ghost start = out@;
            push_char(out, '[');
            write_list(out, items)?;
            push_char(out, ']');
            assert(start.push('[') + enc_list(vals_v(items@)) + seq![']'] =~= start + enc_value(
                v@,
            ));
            Ok(())
        },
        WireValue::Tuple(items) => {
            let ghost start = out@;
            push_char(out, '[');
            write_list(out, items)?;
            push_char(out, ']');
            assert(start.push('[') + enc_list(vals_v(items@)) + seq![']'] =~= start + enc_value(
                v@,
            ));
            Ok(())
        },
        WireValue::Record(fs) => {
            let ghost start = out@;
            push_char(out, '{');
            write_fields(out, fs)?;
            push_char(out, '}');
            assert(start.push('{') + crate::wire::encode::enc_fields(fields_v(fs@)) + seq!['}']
                =~= start + enc_value(v@));
            Ok(())
        },
        WireValue::Ctor(name, args) => {
            let ghost start = out@;
            push_chars(out, &['{', '"', 'c', 't', 'o', 'r', '"', ':']);
            write_string(out, name.as_str());
            push_chars(out, &[',', '"', 'a', 'r', 'g', 's', '"', ':', '[']);
            write_list(out, args)?;
            push_chars(out, &[']', '}']);
            assert(start + seq!['{', '"', 'c', 't', 'o', 'r', '"', ':'] + enc_string(name@) + seq![
                ',',
                '"',
                'a',
                'r',
                'g',
                's',
                '"',
                ':',
                '[',
            ] + enc_list(vals_v(args@)) + seq![']', '}'] =~= start + enc_value(v@));
            Ok(())
        },
    }
}

/// Appends the texts of `items` joined by commas.
fn write_list(out: &mut String, items: &Vec<WireValue>) -> (r: Result<(), EncodeError>)
    ensures
        r is Ok <==> vals_ok(vals_v(items@)),
        r matches Ok(_) ==> final(out)@ == old(out)@ + enc_list(vals_v(items@)),
        r matches Err(e) ==> e == EncodeError::NonFiniteFloat,
    decreases items, 0nat,
{
    let ghost s = vals_v(items@);
    proof {
        lemma_vals_v(items@);
    }
    let ghost start = out@;
    let mut i: usize = 0;
    while i < items.len()
        invariant
            i <= items@.len(),
            s == vals_v(items@),
            s.len() == items@.len(),
            forall|j: int| 0 <= j < items@.len() ==> #[trigger] s[j] == items@[j]@,
            out@ == start + enc_list(s.take(i as int)),
            vals_ok(s.take(i as int)),
        decreases items@.len() - i,
    {
        let ghost before = out@;
        if i > 0 {
            push_char(out, ',');
        }
        assert(items@[i as int] == items[i as int]);
        match write_value(out, &items[i]) {
            Ok(()) => {},
            Err(e) => {
                proof {
                    assert(s.take(s.len() as int) =~= s);
                    if vals_ok(s) {
                        lemma_vals_ok_prefix(s, i as int + 1, s.len() as int);
                    }
                    assert(s.take(i + 1).last() == s[i as int]);
                }
                return Err(e);
            },
        }
        proof {
            let t = s.take(i + 1);
            assert(t.drop_last() =~= s.take(i as int));
            assert(t.last() == s[i as int]);
            if i == 0 {
                assert(t[0] == s[0]);
                assert(start + enc_list(s.take(0)) + enc_value(s[0]) =~= start + enc_list(t));
            } else {
                assert(before.push(',') + enc_value(s[i as int]) =~= start + enc_list(t));
            }
        }
        i = i + 1;
    }
    assert(s.take(i as int) =~= s);
    Ok(())
}

/// Appends the `"label":value` texts of `fs` joined by commas.
fn write_fields(out: &mut String, fs: &Vec<(String, WireValue)>) -> (r: Result<(), EncodeError>)
    ensures
        r is Ok <==> fields_ok(fields_v(fs@)),
        r matches Ok(_) ==> final(out)@ == old(out)@ + enc_fields(fields_v(fs@)),
        r matches Err(e) ==> e == EncodeError::NonFiniteFloat,
    decreases fs, 0nat,
{
    let ghost s = fields_v(fs@);
    proof {
        lemma_fields_v(fs@);
    }
    let ghost start = out@;
    let mut i: usize = 0;
    while i < fs.len()
        invariant
            i <= fs@.len(),
            s == fields_v(fs@),
            s.len() == fs@.len(),
            forall|j: int| 0 <= j < fs@.len() ==> #[trigger] s[j] == (fs@[j].0@, fs@[j].1@),
            out@ == start + enc_fields(s.take(i as int)),
            fields_ok(s.take(i as int)),
        decreases fs@.len() - i,
    {
        let ghost before = out@;
        if i > 0 {
            push_char(out, ',');
        }
        let (label, value) = &fs[i];
        assert(fs@[i as int].1 == fs[i as int].1);
        write_string(out, label.as_str());
        push_char(out, ':');
        match write_value(out, value) {
            Ok(()) => {},
            Err(e) => {
                proof {
                    assert(s.take(s.len() as int) =~= s);
                    if fields_ok(s) {
                        lemma_fields_ok_prefix(s, i as int + 1, s.len() as int);
                    }
                    assert(s.take(i + 1).last() == s[i as int]);
                }
                return Err(e);
            },
        }
        proof {
            let t = s.take(i + 1);
            assert(t.drop_last() =~= s.take(i as int));
            assert(t.last() == s[i as int]);
            if i == 0 {
                assert(t[0] == s[0]);
                assert(start + enc_fields(s.take(0)) + enc_string(s[0].0) + seq![':'] + enc_value(
                    s[0].1,
                ) =~= start + enc_fields(t));
            } else {
                assert(before.push(',') + enc_string(s[i as int].0) + seq![':'] + enc_value(
                    s[i as int].1,
                ) =~= start + enc_fields(t));
            }
        }
        i = i + 1;
    }
    assert(s.take(i as int) =~= s);
    Ok(())
}

/// Whether a prefix of `s` is free of non-finite floats when `s` is.
proof fn lemma_vals_ok_prefix(s: Seq<Val>, n: int, m: int)
    requires
        0 <= n <= m <= s.len(),
        vals_ok(s.take(m)),
    ensures
        vals_ok(s.take(n)),
    decreases m - n,
{
    if n < m {
        assert(s.take(m).drop_last() =~= s.take(m - 1));
        lemma_vals_ok_prefix(s, n, m - 1);
    }
}

/// Whether a prefix of `s` is free of non-finite floats when `s` is.
proof fn lemma_fields_ok_prefix(s: Seq<(Seq<char>, Val)>, n: int, m: int)
    requires
        0 <= n <= m <= s.len(),
        fields_ok(s.take(m)),
    ensures
        fields_ok(s.take(n)),
    decreases m - n,
{
    if n < m {
        assert(s.take(m).drop_last() =~= s.take(m - 1));
        lemma_fields_ok_prefix(s, n, m - 1);
    }
}

/// Encodes a value in canonical form: no whitespace, label-sorted record
/// keys, shortest round-trip floats.
pub fn encode_value(value: &WireValue) -> (r: Result<String, EncodeError>)
    requires
        val_wf(value@),
    ensures
        r is Ok <==> val_ok(value@),
        r matches Ok(s) ==> s@ == enc_value(value@),
        r matches Err(e) ==> e == EncodeError::NonFiniteFloat,
{
    let mut out = String::new();
    write_value(&mut out, value)?;
    Ok(out)
}


/// Appends the canonical text of a meta value.
fn write_meta_value(out: &mut String, m: &MetaValue) -> (r: Result<(), EncodeError>)
    ensures
        r is Ok <==> meta_ok(m@),
        r matches Ok(_) ==> final(out)@ == old(out)@ + enc_meta(m@),
        r matches Err(e) ==> e == EncodeError::NonFiniteFloat,
    decreases m, 1nat,
{
    match m {
        MetaValue::Null => {
            push_chars(out, &['n', 'u', 'l', 'l']);
            Ok(())
        },
        MetaValue::Bool(b) => {
            if *b {
                push_chars(out, &['t', 'r', 'u', 'e']);
            } else {
                push_chars(out, &['f', 'a', 'l', 's', 'e']);
            }
            Ok(())
        },
        MetaValue::Int(i) => {
            write_int(out, *i);
            Ok(())
        },
        MetaValue::Float(t) => write_float(out, t),
        MetaValue::String(s) => {
            write_string(out, s.as_str());
            Ok(())
        },
        MetaValue::Array(items) => {
            let ghost start = out@;
            push_char(out, '[');
            write_metas(out, items)?;
            push_char(out, ']');
            assert(start.push('[') + enc_metas(metas_v(items@)) + seq![']'] =~= start + enc_meta(
                m@,
            ));
            Ok(())
        },
        MetaValue::Object(fs) => write_meta_object(out, fs),
    }
}

/// Appends the texts of `items` joined by commas.
fn write_metas(out: &mut String, items: &Vec<MetaValue>) -> (r: Result<(), EncodeError>)
    ensures
        r is Ok <==> metas_ok(metas_v(items@)),
        r matches Ok(_) ==> final(out)@ == old(out)@ + enc_metas(metas_v(items@)),
        r matches Err(e) ==> e == EncodeError::NonFiniteFloat,
    decreases items, 0nat,
{
    let ghost s = metas_v(items@);
    proof {
        lemma_metas_v(items@);
    }
    let ghost start = out@;
    let mut i: usize = 0;
    while i < items.len()
        invariant
            i <= items@.len(),
            s == metas_v(items@),
            s.len() == items@.len(),
            forall|j: int| 0 <= j < items@.len() ==> #[trigger] s[j] == items@[j]@,
            out@ == start + enc_metas(s.take(i as int)),
            metas_ok(s.take(i as int)),
        decreases items@.len() - i,
    {
        let ghost before = out@;
        if i > 0 {
            push_char(out, ',');
        }
        assert(items@[i as int] == items[i as int]);
        match write_meta_value(out, &items[i]) {
            Ok(()) => {},
            Err(e) => {
                proof {
                    assert(s.take(s.len() as int) =~= s);
                    if metas_ok(s) {
                        lemma_metas_ok_prefix(s, i as int + 1, s.len() as int);
                    }
                    assert(s.take(i + 1).last() == s[i as int]);
                }
                return Err(e);
            },
        }
        proof {
            let t = s.take(i + 1);
            assert(t.drop_last() =~= s.take(i as int));
            assert(t.last() == s[i as int]);
            if i == 0 {
                assert(t[0] == s[0]);
                assert(start + enc_metas(s.take(0)) + enc_meta(s[0]) =~= start + enc_metas(t));
            } else {
                assert(before.push(',') + enc_meta(s[i as int]) =~= start + enc_metas(t));
            }
        }
        i = i + 1;
    }
    assert(s.take(i as int) =~= s);
    Ok(())
}

/// Appends a meta object: keys in their stored order, no whitespace.
fn write_meta_object(out: &mut String, fs: &Vec<(String, MetaValue)>) -> (r: Result<(), EncodeError>)
    ensures
        r is Ok <==> meta_fields_ok(meta_fields_v(fs@)),
        r matches Ok(_) ==> final(out)@ == old(out)@ + enc_meta_object(meta_fields_v(fs@)),
        r matches Err(e) ==> e == EncodeError::NonFiniteFloat,
    decreases fs, 0nat,
{
    let ghost s = meta_fields_v(fs@);
    proof {
        lemma_meta_fields_v(fs@);
    }
    let ghost start = out@;
    push_char(out, '{');
    let mut i: usize = 0;
    while i < fs.len()
        invariant
            i <= fs@.len(),
            s == meta_fields_v(fs@),
            s.len() == fs@.len(),
            forall|j: int| 0 <= j < fs@.len() ==> #[trigger] s[j] == (fs@[j].0@, fs@[j].1@),
            out@ == start.push('{') + enc_meta_fields(s.take(i as int)),
            meta_fields_ok(s.take(i as int)),
        decreases fs@.len() - i,
    {
        let ghost before = out@;
        if i > 0 {
            push_char(out, ',');
        }
        let (key, value) = &fs[i];
        assert(fs@[i as int].1 == fs[i as int].1);
        write_string(out, key.as_str());
        push_char(out, ':');
        match write_meta_value(out, value) {
            Ok(()) => {},
            Err(e) => {
                proof {
                    assert(s.take(s.len() as int) =~= s);
                    if meta_fields_ok(s) {
                        lemma_meta_fields_ok_prefix(s, i as int + 1, s.len() as int);
                    }
                    assert(s.take(i + 1).last() == s[i as int]);
                }
                return Err(e);
            },
        }
        proof {
            let t = s.take(i + 1);
            assert(t.drop_last() =~= s.take(i as int));
            assert(t.last() == s[i as int]);
            if i == 0 {
                assert(t[0] == s[0]);
                assert(start.push('{') + enc_meta_fields(s.take(0)) + enc_string(s[0].0) + seq![':']
                    + enc_meta(s[0].1) =~= start.push('{') + enc_meta_fields(t));
            } else {
                assert(before.push(',') + enc_string(s[i as int].0) + seq![':'] + enc_meta(
                    s[i as int].1,
                ) =~= start.push('{') + enc_meta_fields(t));
            }
        }
        i = i + 1;
    }
    assert(s.take(i as int) =~= s);
    push_char(out, '}');
    assert(start.push('{') + enc_meta_fields(s) + seq!['}'] =~= start + enc_meta_object(s));
    Ok(())
}

/// Whether a prefix of `s` is free of non-finite floats when `s` is.
proof fn lemma_metas_ok_prefix(s: Seq<Meta>, n: int, m: int)
    requires
        0 <= n <= m <= s.len(),
        metas_ok(s.take(m)),
    ensures
        metas_ok(s.take(n)),
    decreases m - n,
{
    if n < m {
        assert(s.take(m).drop_last() =~= s.take(m - 1));
        lemma_metas_ok_prefix(s, n, m - 1);
    }
}

/// Whether a prefix of `s` is free of non-finite floats when `s` is.
proof fn lemma_meta_fields_ok_prefix(s: Seq<(Seq<char>, Meta)>, n: int, m: int)
    requires
        0 <= n <= m <= s.len(),
        meta_fields_ok(s.take(m)),
    ensures
        meta_fields_ok(s.take(n)),
    decreases m - n,
{
    if n < m {
        assert(s.take(m).drop_last() =~= s.take(m - 1));
        lemma_meta_fields_ok_prefix(s, n, m - 1);
    }
}

/// The value of the decimal digit `c`.
fn digit_value(c: char) -> (r: u32)
    requires
        is_digit(c),
    ensures
        r == digit_val(c),
        r < 10,
{
    (c as u32) - ('0' as u32)
}

/// Whether `c` is an ASCII decimal digit.
fn is_ascii_digit(c: char) -> (r: bool)
    ensures
        r == is_digit(c),
{
    '0' <= c && c <= '9'
}

/// Whether `s` is an RFC 3339 UTC instant with millisecond precision:
/// `YYYY-MM-DDTHH:MM:SS.mmmZ`, with in-range fields (days are checked
/// against 31, not the month's calendar length).
pub fn is_valid_timestamp(s: &str) -> (r: bool)
    ensures
        r == valid_timestamp(s@),
{
    let b = crate::wire::text::chars_of(s);
    if b.len() != 24 {
        return false;
    }
    let mut i: usize = 0;
    while i < 24
        invariant
            i <= 24,
            b@.len() == 24,
            b@ == s@,
            forall|j: int|
                0 <= j < i && j != 4 && j != 7 && j != 10 && j != 13 && j != 16 && j != 19 && j
                    != 23 ==> is_digit(#[trigger] b@[j]),
        decreases 24 - i,
    {
        if i != 4 && i != 7 && i != 10 && i != 13 && i != 16 && i != 19 && i != 23 {
            if !is_ascii_digit(b[i]) {
                return false;
            }
        }
        i = i + 1;
    }
    if b[4] != '-' || b[7] != '-' || b[10] != 'T' || b[13] != ':' || b[16] != ':' {
        return false;
    }
    if b[19] != '.' || b[23] != 'Z' {
        return false;
    }
    let month = 10 * digit_value(b[5]) + digit_value(b[6]);
    let day = 10 * digit_value(b[8]) + digit_value(b[9]);
    let hour = 10 * digit_value(b[11]) + digit_value(b[12]);
    let minute = 10 * digit_value(b[14]) + digit_value(b[15]);
    let second = 10 * digit_value(b[17]) + digit_value(b[18]);
    1 <= month && month <= 12 && 1 <= day && day <= 31 && hour < 24 && minute < 60 && second < 60
}

/// Appends the canonical text of a tool result.
fn write_result(out: &mut String, result: &ToolResult) -> (r: Result<(), EncodeError>)
    ensures
        r is Ok <==> val_ok(result_val(result@)),
        r matches Ok(_) ==> final(out)@ == old(out)@ + enc_result(result@),
        r matches Err(e) ==> e == EncodeError::NonFiniteFloat,
{
    let ghost start = out@;
    match result {
        ToolResult::Success(value) => {
            push_chars(out, &['{', '"', 'o', 'k', '"', ':']);
            write_value(out, value)?;
        },
        ToolResult::Failure(value) => {
            push_chars(out, &['{', '"', 'e', 'r', 'r', '"', ':']);
            write_value(out, value)?;
        },
    }
    push_char(out, '}');
    assert(out@ =~= start + enc_result(result@));
    Ok(())
}

/// Appends the `meta` member when present.
fn write_meta_member(out: &mut String, meta: &Option<Vec<(String, MetaValue)>>) -> (r: Result<(), EncodeError>)
    ensures
        r is Ok <==> (meta matches Some(m) ==> meta_fields_ok(meta_fields_v(m@))),
        r matches Ok(_) ==> final(out)@ == old(out)@ + match meta {
            Some(m) => key_text(seq!['m', 'e', 't', 'a']) + enc_meta_object(meta_fields_v(m@)),
            None => Seq::<char>::empty(),
        },
        r matches Err(e) ==> e == EncodeError::NonFiniteFloat,
{
    let ghost start = out@;
    match meta {
        Some(m) => {
            push_chars(out, &[',', '"', 'm', 'e', 't', 'a', '"', ':']);
            write_meta_object(out, m)?;
            assert(out@ =~= start + key_text(seq!['m', 'e', 't', 'a']) + enc_meta_object(
                meta_fields_v(m@),
            ));
        },
        None => {
            assert(out@ =~= start + Seq::<char>::empty());
        },
    }
    Ok(())
}

/// Encodes a record as one canonical JSON line (no trailing newline), with
/// the envelope fields in fixed order.
pub fn encode_record(record: &InvocationRecord) -> (r: Result<String, EncodeError>)
    requires
        record_wf(record@),
    ensures
        !valid_timestamp(record.timestamp@) ==> (r matches Err(EncodeError::BadTimestamp(ts))
            && ts@ == record.timestamp@),
        valid_timestamp(record.timestamp@) ==> (r is Ok <==> record_ok(record@)),
        valid_timestamp(record.timestamp@) ==> (r matches Err(e) ==> e
            == EncodeError::NonFiniteFloat),
        r matches Ok(s) ==> s@ == enc_record(record@),
{
    if !is_valid_timestamp(record.timestamp.as_str()) {
        return Err(EncodeError::BadTimestamp(record.timestamp.clone()));
    }
    let mut out = String::new();
    push_chars(
        &mut out,
        &[
            '{', '"', 's', 'c', 'h', 'e', 'm', 'a', '_', 'v', 'e', 'r', 's', 'i', 'o', 'n', '"',
            ':', '1', ',', '"', 't', 'o', 'o', 'l', '"', ':',
        ],
    );
    let ghost s0 = out@;
    write_string(&mut out, record.tool.as_str());
    push_chars(&mut out, &[',', '"', 'a', 'r', 'g', 's', '"', ':']);
    let ghost s1 = out@;
    write_value(&mut out, &record.args)?;
    let ghost s2 = out@;
    push_chars(&mut out, &[',', '"', 'r', 'e', 's', 'u', 'l', 't', '"', ':']);
    write_result(&mut out, &record.result)?;
    let ghost s3 = out@;
    push_chars(&mut out, &[',', '"', 't', 'i', 'm', 'e', 's', 't', 'a', 'm', 'p', '"', ':']);
    write_string(&mut out, record.timestamp.as_str());
    push_chars(&mut out, &[',', '"', 'c', 'a', 'l', 'l', 'e', 'r', '"', ':']);
    write_string(&mut out, record.caller.as_str());
    let ghost s4 = out@;
    write_meta_member(&mut out, &record.meta)?;
    let ghost s5 = out@;
    push_char(&mut out, '}');
    proof {
        assert(s0 =~= head_text());
        assert(s1 =~= head_text() + enc_string(record.tool@) + key_text(seq!['a', 'r', 'g', 's']));
        assert(s3 =~= s2 + key_text(seq!['r', 'e', 's', 'u', 'l', 't']) + enc_result(
            record.result@,
        ));
        assert(s4 =~= s3 + key_text(seq!['t', 'i', 'm', 'e', 's', 't', 'a', 'm', 'p']) + enc_string(
            record.timestamp@,
        ) + key_text(seq!['c', 'a', 'l', 'l', 'e', 'r']) + enc_string(record.caller@));
        assert(out@ =~= enc_record(record@));
    }
    Ok(out)
}

/// Where invocation records go: a recording handler receives one
/// explicitly.
pub trait AuditSink {
    /// Records one invocation; fails when the record cannot be encoded.
    fn emit(&mut self, record: &InvocationRecord) -> Result<(), EncodeError>
        requires
            record_wf(record@),
    ;
}

/// The default sink: canonical JSON lines appended to an in-memory buffer,
/// one record per line.
#[derive(Debug)]
pub struct JsonLinesSink {
    /// The accumulated log.
    buf: String,
}

impl View for JsonLinesSink {
    type V = Seq<char>;

    closed spec fn view(&self) -> Seq<char> {
        self.buf@
    }
}

impl JsonLinesSink {
    /// An empty sink.
    pub fn new() -> (r: Self)
        ensures
            r@ == Seq::<char>::empty(),
    {
        JsonLinesSink { buf: String::new() }
    }

    /// The log so far: one JSON record per newline-terminated line.
    pub fn as_str(&self) -> (r: &str)
        ensures
            r@ == self@,
    {
        self.buf.as_str()
    }

    /// Consumes the sink, returning the log.
    pub fn into_string(self) -> (r: String)
        ensures
            r@ == self@,
    {
        self.buf
    }
}

impl AuditSink for JsonLinesSink {
    /// Appends the record's canonical line and a newline; on an encoding
    /// failure the log is left unchanged.
    fn emit(&mut self, record: &InvocationRecord) -> (r: Result<(), EncodeError>)
        ensures
            r is Ok ==> final(self)@ == old(self)@ + enc_record(record@).push('\n'),
            r is Err ==> final(self)@ == old(self)@,
            r is Ok <==> valid_timestamp(record.timestamp@) && record_ok(record@),
            !valid_timestamp(record.timestamp@) ==> (r matches Err(EncodeError::BadTimestamp(ts))
                && ts@ == record.timestamp@),
            valid_timestamp(record.timestamp@) ==> (r matches Err(e) ==> e == EncodeError::NonFiniteFloat),
    {
        let line = match encode_record(record) {
            Ok(line) => line,
            Err(e) => {
                return Err(e);
            },
        };
        self.buf.append(line.as_str());
        push_char(&mut self.buf, '\n');
        Ok(())
    }
}

} // verus!
