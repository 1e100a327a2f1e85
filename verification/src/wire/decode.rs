//! Type-directed decoding of the wire format: each reader follows the
//! grammar step of the same name in [`crate::wire::grammar`].
use vstd::prelude::*;

use crate::wire::grammar;
use crate::wire::encode::is_valid_timestamp;
use crate::wire::schema::{chars_eq, chars_lt, ctors_v, lemma_ctors_v, strip, subst_tys, AdtTable, ToolWireSig};
use crate::wire::value::{
    fields_ty_v, fields_v, lemma_fields_ty_v, lemma_meta_fields_v, lemma_tys_v, meta_fields_v,
    metas_v, tys_v, vals_v, InvocationRecord, Meta, MetaValue, ToolResult, Ty, TyV, Val, WireValue,
};
use crate::wire::text::{chars_of, int_text, push_char, push_chars, write_int};

verus! {

/// Why a wire string failed to decode.
#[derive(Debug, PartialEq, Eq)]
pub struct DecodeError {
    /// Byte offset of the failure in the input.
    pub offset: usize,
    /// What went wrong.
    pub message: String,
}

impl DecodeError {
    /// `decode error at byte <offset>: <message>`.
    pub fn render(&self) -> (r: String)
        ensures
            r@ == seq!['d', 'e', 'c', 'o', 'd', 'e', ' ', 'e', 'r', 'r', 'o', 'r', ' ', 'a', 't', ' ', 'b', 'y', 't', 'e', ' ']
                + crate::wire::text::nat_text(self.offset as nat) + seq![':', ' '] + self.message@,
    {
        let mut out = "decode error at byte ".to_owned();
        proof {
            reveal_strlit("decode error at byte ");
        }
        crate::wire::text::write_nat(&mut out, self.offset as u64);
        push_char(&mut out, ':');
        push_char(&mut out, ' ');
        let m = chars_of(self.message.as_str());
        push_chars(&mut out, m.as_slice());
        out
    }
}

/// The character with code point `code`: `char::from_u32`, which returns
/// the character when `code` is a Unicode scalar value (below `0x110000`
/// and outside the surrogates `0xD800..0xE000`) and `None` otherwise.
#[verifier::external_body]
fn char_from_code(code: u32) -> (r: Option<char>)
    ensures
        r == (if code < 0xD800 || (0xE000 <= code < 0x110000) {
            Some(code as char)
        } else {
            None
        }),
{
    char::from_u32(code)
}

/// The number of UTF-8 bytes that encode `c`.
pub open spec fn utf8_width(c: char) -> nat {
    if (c as u32) < 0x80 {
        1
    } else if (c as u32) < 0x800 {
        2
    } else if (c as u32) < 0x10000 {
        3
    } else {
        4
    }
}

/// The number of UTF-8 bytes that encode `s`.
pub open spec fn utf8_bytes(s: Seq<char>) -> nat
    decreases s.len(),
{
    if s.len() == 0 {
        0
    } else {
        utf8_bytes(s.drop_last()) + utf8_width(s.last())
    }
}

/// The byte offset of character position `p` in `s` (a position past the
/// end counts as the end), capped at `usize::MAX`.
pub open spec fn byte_offset_of(s: Seq<char>, p: int) -> int {
    let k = if p < s.len() { p } else { s.len() as int };
    let t = utf8_bytes(s.take(k));
    if t <= usize::MAX { t as int } else { usize::MAX as int }
}

/// The number of UTF-8 bytes that encode `c`.
fn utf8_len(c: char) -> (r: usize)
    ensures
        r == utf8_width(c),
        1 <= r <= 4,
{
    let code = c as u32;
    if code < 0x80 {
        1
    } else if code < 0x800 {
        2
    } else if code < 0x10000 {
        3
    } else {
        4
    }
}

/// The byte offset of character position `p`.
fn byte_offset(s: &Vec<char>, p: usize) -> (r: usize)
    ensures
        r == byte_offset_of(s@, p as int),
{
    let mut off: usize = 0;
    let mut i: usize = 0;
    proof {
        assert(s@.take(0) =~= Seq::<char>::empty());
    }
    while i < p && i < s.len()
        invariant
            i <= s@.len(),
            i <= p,
            off as int == (if utf8_bytes(s@.take(i as int)) <= usize::MAX {
                utf8_bytes(s@.take(i as int)) as int
            } else {
                usize::MAX as int
            }),
        decreases s@.len() - i,
    {
        let w = utf8_len(s[i]);
        proof {
            assert(s@.take(i + 1).drop_last() =~= s@.take(i as int));
            assert(s@.take(i + 1).last() == s@[i as int]);
        }
        off = off.saturating_add(w);
        i = i + 1;
    }
    proof {
        if p < s@.len() {
            assert(i == p);
        } else {
            assert(i == s@.len());
        }
    }
    off
}

/// A decode error at character position `p`.
fn fail(s: &Vec<char>, p: usize, message: &str) -> (r: DecodeError)
    ensures
        r.offset == byte_offset_of(s@, p as int),
        r.message@ == message@,
{
    DecodeError { offset: byte_offset(s, p), message: message.to_owned() }
}

/// A decode error at `p` whose message quotes `quoted` between `before`
/// and `after`.
fn fail_quoting(s: &Vec<char>, p: usize, before: &str, quoted: &[char], after: &str) -> (r: DecodeError)
    ensures
        r.offset == byte_offset_of(s@, p as int),
        r.message@ == before@ + quoted@ + after@,
{
    let mut message = before.to_owned();
    push_chars(&mut message, quoted);
    let tail = chars_of(after);
    push_chars(&mut message, tail.as_slice());
    DecodeError { offset: byte_offset(s, p), message }
}

// ── where and why reading fails ─────────────────────────────────

/// Whether `e` reports the failure `f`: at the byte offset of character
/// position `f.0`, with message `f.1`.
pub open spec fn fails(s: Seq<char>, e: DecodeError, f: (int, Seq<char>)) -> bool {
    e.offset == byte_offset_of(s, f.0) && e.message@ == f.1
}

/// Where and why consuming `c` fails: at the first non-whitespace
/// character.
pub open spec fn expect_fail(s: Seq<char>, p: int, c: char) -> (int, Seq<char>) {
    (grammar::skip_ws(s, p), "expected `"@ + seq![c] + "`"@)
}

/// Where and why consuming the text `t` fails.
pub open spec fn literal_fail(p: int, t: Seq<char>) -> (int, Seq<char>) {
    (p, "expected `"@ + t + "`"@)
}

/// Where and why the four digits of a `\u` escape fail.
pub open spec fn hex4_fail(s: Seq<char>, p: int) -> (int, Seq<char>) {
    if p + 4 > s.len() {
        (p, "truncated unicode escape"@)
    } else {
        (p, "invalid unicode escape"@)
    }
}

/// Where and why a `\u` escape fails.
pub open spec fn unicode_fail(s: Seq<char>, p: int) -> (int, Seq<char>) {
    match grammar::hex4(s, p) {
        None => hex4_fail(s, p),
        Some((high, q)) => if 0xD800 <= high < 0xDC00 {
            match grammar::literal(s, q, seq!['\\', 'u']) {
                None => literal_fail(q, seq!['\\', 'u']),
                Some(q2) => match grammar::hex4(s, q2) {
                    None => hex4_fail(s, q2),
                    Some((low, q3)) => if 0xDC00 <= low < 0xE000 {
                        (q3, "invalid surrogate pair"@)
                    } else {
                        (q3, "unpaired surrogate escape"@)
                    },
                },
            }
        } else {
            (q, "invalid unicode escape"@)
        },
    }
}

/// Where and why an escape fails, its `\` already consumed.
pub open spec fn escape_fail(s: Seq<char>, p: int) -> (int, Seq<char>) {
    if !(0 <= p < s.len()) {
        (p, "unterminated escape"@)
    } else if s[p] == 'u' {
        unicode_fail(s, p + 1)
    } else {
        (p + 1, "unknown escape `"@ + seq!['\\', s[p]] + "`"@)
    }
}

/// Where and why the body of a string literal fails.
pub open spec fn str_body_fail(s: Seq<char>, p: int) -> (int, Seq<char>)
    decreases s.len() - p,
{
    if !(0 <= p < s.len()) {
        (p, "unterminated string"@)
    } else if s[p] == '\\' {
        match grammar::escape(s, p + 1) {
            None => escape_fail(s, p + 1),
            Some((_, q)) => if q > p {
                str_body_fail(s, q)
            } else {
                (p, "unterminated string"@)
            },
        }
    } else if s[p] != '"' && (s[p] as u32) < 0x20 {
        (p, "raw control character in string"@)
    } else {
        str_body_fail(s, p + 1)
    }
}

/// Where and why a string literal fails.
pub open spec fn string_fail(s: Seq<char>, p: int) -> (int, Seq<char>) {
    match grammar::expect(s, p, '"') {
        None => expect_fail(s, p, '"'),
        Some(q) => str_body_fail(s, q),
    }
}

/// Where and why reading the key `name` and its `:` fails.
pub open spec fn key_fail(s: Seq<char>, p: int, name: Seq<char>) -> (int, Seq<char>) {
    match grammar::string(s, p) {
        None => string_fail(s, p),
        Some((k, q)) => if k != name {
            (q, "expected key `"@ + name + "`, found `"@ + k + seq!['`'])
        } else {
            expect_fail(s, q, ':')
        },
    }
}

/// Where and why the envelope prefix through the tool name fails.
pub open spec fn envelope_fail(s: Seq<char>, p: int) -> (int, Seq<char>) {
    match grammar::expect(s, p, '{') {
        None => expect_fail(s, p, '{'),
        Some(q1) => match grammar::key(
            s,
            q1,
            seq!['s', 'c', 'h', 'e', 'm', 'a', '_', 'v', 'e', 'r', 's', 'i', 'o', 'n'],
        ) {
            None => key_fail(s, q1, seq!['s', 'c', 'h', 'e', 'm', 'a', '_', 'v', 'e', 'r', 's', 'i', 'o', 'n']),
            Some(q2) => match grammar::number_str(s, grammar::skip_ws(s, q2)) {
                None => (grammar::skip_ws(s, q2), "expected a number"@),
                Some((t, q3)) => if grammar::parse_int(t) != Some(1i64) {
                    (q3, version_message(t))
                } else {
                    match grammar::expect(s, q3, ',') {
                        None => expect_fail(s, q3, ','),
                        Some(q4) => match grammar::key(s, q4, seq!['t', 'o', 'o', 'l']) {
                            None => key_fail(s, q4, seq!['t', 'o', 'o', 'l']),
                            Some(q5) => string_fail(s, q5),
                        },
                    }
                },
            },
        },
    }
}

/// Where and why reading `{"ctor":"Name","args":[` for one of `ctors`
/// fails.
pub open spec fn ctor_head_fail(s: Seq<char>, p: int, ctors: Seq<(Seq<char>, Seq<TyV>)>) -> (int, Seq<char>) {
    match grammar::expect(s, p, '{') {
        None => expect_fail(s, p, '{'),
        Some(q1) => match grammar::key(s, grammar::skip_ws(s, q1), seq!['c', 't', 'o', 'r']) {
            None => key_fail(s, grammar::skip_ws(s, q1), seq!['c', 't', 'o', 'r']),
            Some(q2) => match grammar::string(s, q2) {
                None => string_fail(s, q2),
                Some((name, q3)) => match grammar::find_ctor(ctors, name, 0) {
                    None => (q3, "`"@ + name + "` is not a constructor of the type"@),
                    Some(_) => match grammar::expect(s, q3, ',') {
                        None => expect_fail(s, q3, ','),
                        Some(q4) => match grammar::key(s, grammar::skip_ws(s, q4), seq!['a', 'r', 'g', 's']) {
                            None => key_fail(s, grammar::skip_ws(s, q4), seq!['a', 'r', 'g', 's']),
                            Some(q5) => expect_fail(s, q5, '['),
                        },
                    },
                },
            },
        },
    }
}

/// Where and why reading a value of type `ty` fails.
pub open spec fn value_fail(s: Seq<char>, p: int, ty: TyV, adts: grammar::AdtMap) -> (int, Seq<char>)
    decreases s.len() - p, 0nat,
{
    let q = grammar::skip_ws(s, p);
    match grammar::strip(ty) {
        TyV::Tuple(es) => if es.len() == 0 {
            literal_fail(q, grammar::null_text())
        } else {
            match grammar::expect(s, q, '[') {
                None => expect_fail(s, q, '['),
                Some(q1) => match grammar::fixed_items(s, q1, es, 0, adts) {
                    None => fixed_fail(s, q1, es, 0, adts),
                    Some((_, q2)) => expect_fail(s, q2, ']'),
                },
            }
        },
        TyV::Record(fs) => match grammar::expect(s, q, '{') {
            None => expect_fail(s, q, '{'),
            Some(q1) => match grammar::rec_fields(s, q1, fs, 0, adts) {
                None => fields_fail(s, q1, fs, 0, adts),
                Some((_, q2)) => expect_fail(s, q2, '}'),
            },
        },
        TyV::Con(name, args) => if name == seq!['I', 'n', 't'] && args.len() == 0 {
            match grammar::number_str(s, q) {
                None => (q, "expected a number"@),
                Some((t, r)) => if grammar::has_frac(t) {
                    (r, "`"@ + t + "` is not an integer"@)
                } else {
                    (r, "`"@ + t + "` is not an integer in i64 range"@)
                },
            }
        } else if name == seq!['F', 'l', 'o', 'a', 't'] && args.len() == 0 {
            match grammar::number_str(s, q) {
                None => (q, "expected a number"@),
                Some((t, r)) => (r, "`"@ + t + "` is not a number"@),
            }
        } else if name == seq!['S', 't', 'r', 'i', 'n', 'g'] && args.len() == 0 {
            string_fail(s, q)
        } else if name == seq!['L', 'i', 's', 't'] && args.len() == 1 {
            match grammar::expect(s, q, '[') {
                None => expect_fail(s, q, '['),
                Some(q1) => {
                    let q2 = grammar::skip_ws(s, q1);
                    proof {
                        grammar::lemma_skip_ws(s, q1);
                    }
                    match grammar::list_items(s, q2, args[0], adts) {
                        None => list_fail(s, q2, args[0], adts),
                        Some((_, q3)) => expect_fail(s, q3, ']'),
                    }
                },
            }
        } else if adts.contains_key(name) {
            match grammar::ctor_head(s, q, adts[name]) {
                None => ctor_head_fail(s, q, adts[name]),
                Some((idx, q1)) => {
                    proof {
                        grammar::lemma_ctor_head(s, q, adts[name]);
                    }
                    let c = adts[name][idx];
                    match grammar::fixed_items(s, q1, grammar::subst_all(c.1, args), 0, adts) {
                        None => fixed_fail(s, q1, grammar::subst_all(c.1, args), 0, adts),
                        Some((_, q2)) => match grammar::expect(s, q2, ']') {
                            None => expect_fail(s, q2, ']'),
                            Some(q3) => expect_fail(s, q3, '}'),
                        },
                    }
                },
            }
        } else {
            (q, "no constructors known for type `"@ + name + "`"@)
        },
        TyV::Var(_) => (q, "cannot decode at an uninstantiated type variable"@),
        _ => (q, "function types are not wire-representable"@),
    }
}

/// Where and why reading the elements `i..` of a fixed-arity array fails.
pub open spec fn fixed_fail(s: Seq<char>, p: int, tys: Seq<TyV>, i: int, adts: grammar::AdtMap) -> (int, Seq<char>)
    decreases s.len() - p, 1nat,
{
    if i < 0 || i >= tys.len() {
        (p, Seq::empty())
    } else {
        let p1 = if i > 0 {
            grammar::expect(s, p, ',')
        } else {
            Some(p)
        };
        match p1 {
            None => expect_fail(s, p, ','),
            Some(p1) => match grammar::value(s, p1, tys[i], adts) {
                None => value_fail(s, p1, tys[i], adts),
                Some((_, q)) => if q <= p || q > s.len() {
                    (p, Seq::empty())
                } else {
                    fixed_fail(s, q, tys, i + 1, adts)
                },
            },
        }
    }
}

/// Where and why reading the fields `i..` of a record body fails.
pub open spec fn fields_fail(
    s: Seq<char>,
    p: int,
    fs: Seq<(Seq<char>, TyV)>,
    i: int,
    adts: grammar::AdtMap,
) -> (int, Seq<char>)
    decreases s.len() - p, 1nat,
{
    if i < 0 || i >= fs.len() {
        (p, Seq::empty())
    } else {
        let p1 = if i > 0 {
            grammar::expect(s, p, ',')
        } else {
            Some(p)
        };
        match p1 {
            None => expect_fail(s, p, ','),
            Some(p1) => match grammar::key(s, grammar::skip_ws(s, p1), fs[i].0) {
                None => key_fail(s, grammar::skip_ws(s, p1), fs[i].0),
                Some(p2) => if p2 <= p || p2 > s.len() {
                    (p, Seq::empty())
                } else {
                    match grammar::value(s, p2, fs[i].1, adts) {
                        None => value_fail(s, p2, fs[i].1, adts),
                        Some((_, q)) => if q <= p || q > s.len() {
                            (p, Seq::empty())
                        } else {
                            fields_fail(s, q, fs, i + 1, adts)
                        },
                    }
                },
            },
        }
    }
}

/// Where and why reading the items of a non-empty list fails.
pub open spec fn list_fail(s: Seq<char>, p: int, elem: TyV, adts: grammar::AdtMap) -> (int, Seq<char>)
    decreases s.len() - p, 1nat,
{
    match grammar::value(s, p, elem, adts) {
        None => value_fail(s, p, elem, adts),
        Some((_, q)) => if q <= p || q > s.len() {
            (p, Seq::empty())
        } else {
            let q1 = grammar::skip_ws(s, q);
            if q1 < s.len() && s[q1] == ',' {
                list_fail(s, q1 + 1, elem, adts)
            } else {
                (p, Seq::empty())
            }
        },
    }
}

/// Where and why reading a self-describing value fails.
pub open spec fn meta_value_fail(s: Seq<char>, p: int) -> (int, Seq<char>)
    decreases s.len() - p, 0nat,
{
    let q = grammar::skip_ws(s, p);
    if 0 <= q < s.len() && s[q] == 'n' {
        literal_fail(q, grammar::null_text())
    } else if 0 <= q < s.len() && s[q] == 't' {
        literal_fail(q, seq!['t', 'r', 'u', 'e'])
    } else if 0 <= q < s.len() && s[q] == 'f' {
        literal_fail(q, seq!['f', 'a', 'l', 's', 'e'])
    } else if 0 <= q < s.len() && s[q] == '"' {
        string_fail(s, q)
    } else if 0 <= q < s.len() && s[q] == '[' {
        let q2 = grammar::skip_ws(s, q + 1);
        proof {
            grammar::lemma_skip_ws(s, q + 1);
        }
        match grammar::meta_items(s, q2) {
            None => meta_items_fail(s, q2),
            Some((_, q3)) => expect_fail(s, q3, ']'),
        }
    } else if 0 <= q < s.len() && s[q] == '{' {
        meta_object_body_fail(s, q + 1)
    } else {
        match grammar::number_str(s, q) {
            None => (q, "expected a number"@),
            Some((t, r)) => if grammar::has_frac(t) {
                (r, "`"@ + t + "` is not a number"@)
            } else {
                (r, "`"@ + t + "` is not an integer in i64 range"@)
            },
        }
    }
}

/// Where and why reading the items of a non-empty array fails.
pub open spec fn meta_items_fail(s: Seq<char>, p: int) -> (int, Seq<char>)
    decreases s.len() - p, 1nat,
{
    match grammar::meta_value(s, p) {
        None => meta_value_fail(s, p),
        Some((_, q)) => if q <= p || q > s.len() {
            (p, Seq::empty())
        } else {
            let q1 = grammar::skip_ws(s, q);
            if q1 < s.len() && s[q1] == ',' {
                meta_items_fail(s, q1 + 1)
            } else {
                (p, Seq::empty())
            }
        },
    }
}

/// Where and why reading the members of an object fails.
pub open spec fn meta_members_fail(s: Seq<char>, p: int, acc: Seq<(Seq<char>, Meta)>) -> (int, Seq<char>)
    decreases s.len() - p, 1nat,
{
    match grammar::string(s, grammar::skip_ws(s, p)) {
        None => string_fail(s, grammar::skip_ws(s, p)),
        Some((k, q1)) => match grammar::expect(s, q1, ':') {
            None => expect_fail(s, q1, ':'),
            Some(q2) => if q2 <= p {
                (p, Seq::empty())
            } else {
                match grammar::meta_value(s, q2) {
                    None => meta_value_fail(s, q2),
                    Some((v, q3)) => if q3 <= p || q3 > s.len() {
                        (p, Seq::empty())
                    } else {
                        let q4 = grammar::skip_ws(s, q3);
                        if q4 < s.len() && s[q4] == ',' {
                            meta_members_fail(s, q4 + 1, grammar::meta_insert(acc, k, v))
                        } else {
                            (p, Seq::empty())
                        }
                    },
                }
            },
        },
    }
}

/// Where and why reading an object's body fails, the `{` consumed.
pub open spec fn meta_object_body_fail(s: Seq<char>, p: int) -> (int, Seq<char>)
    decreases s.len() - p, 2nat,
{
    let q = grammar::skip_ws(s, p);
    proof {
        grammar::lemma_skip_ws(s, p);
    }
    match grammar::meta_members(s, q, Seq::empty()) {
        None => meta_members_fail(s, q, Seq::empty()),
        Some((_, r)) => expect_fail(s, r, '}'),
    }
}

/// Where and why reading the optional `,"meta":{…}` member fails.
pub open spec fn meta_member_fail(s: Seq<char>, p: int) -> (int, Seq<char>) {
    match grammar::key(s, p + 1, seq!['m', 'e', 't', 'a']) {
        None => key_fail(s, p + 1, seq!['m', 'e', 't', 'a']),
        Some(q) => match grammar::expect(s, q, '{') {
            None => expect_fail(s, q, '{'),
            Some(q1) => meta_object_body_fail(s, q1),
        },
    }
}

/// Where and why reading the tagged `result` field fails.
pub open spec fn result_fail(s: Seq<char>, p: int, ok_ty: TyV, errs: Seq<TyV>, adts: grammar::AdtMap) -> (int, Seq<char>) {
    match grammar::expect(s, p, '{') {
        None => expect_fail(s, p, '{'),
        Some(q1) => match grammar::string(s, grammar::skip_ws(s, q1)) {
            None => string_fail(s, grammar::skip_ws(s, q1)),
            Some((tag, q2)) => match grammar::expect(s, q2, ':') {
                None => expect_fail(s, q2, ':'),
                Some(q3) => {
                    let inner = if tag == seq!['o', 'k'] {
                        match grammar::value(s, q3, ok_ty, adts) {
                            None => Err(value_fail(s, q3, ok_ty, adts)),
                            Some((_, q4)) => Ok(q4),
                        }
                    } else if tag == seq!['e', 'r', 'r'] {
                        match grammar::first_err(s, q3, errs, 0, adts) {
                            None => Err((q3, "err value matches none of the tool's declared error types"@)),
                            Some((_, q4)) => Ok(q4),
                        }
                    } else {
                        Err((q3, "expected result tag `ok` or `err`, found `"@ + tag + "`"@))
                    };
                    match inner {
                        Err(f) => f,
                        Ok(q4) => expect_fail(s, q4, '}'),
                    }
                },
            },
        },
    }
}

// ── lexical steps ───────────────────────────────────────────────

/// Whether `c` is JSON whitespace.
fn is_ws(c: char) -> (r: bool)
    ensures
        r == grammar::is_ws(c),
{
    c == ' ' || c == '\t' || c == '\n' || c == '\r'
}

/// Skips JSON whitespace.
fn read_ws(s: &Vec<char>, p: usize) -> (q: usize)
    requires
        p <= s@.len(),
    ensures
        q as int == grammar::skip_ws(s@, p as int),
        p <= q <= s@.len(),
{
    let mut q = p;
    while q < s.len() && is_ws(s[q])
        invariant
            p <= q <= s@.len(),
            grammar::skip_ws(s@, p as int) == grammar::skip_ws(s@, q as int),
        decreases s@.len() - q,
    {
        q = q + 1;
    }
    q
}

/// Consumes `c` after any whitespace.
fn read_expect(s: &Vec<char>, p: usize, c: char) -> (r: Result<usize, DecodeError>)
    requires
        p <= s@.len(),
    ensures
        r matches Ok(q) ==> grammar::expect(s@, p as int, c) == Some(q as int) && p < q <= s@.len(),
        r is Err ==> grammar::expect(s@, p as int, c) is None,
        r matches Err(e) ==> fails(s@, e, expect_fail(s@, p as int, c)),
{
    let q = read_ws(s, p);
    if q < s.len() && s[q] == c {
        Ok(q + 1)
    } else {
        let quoted = [c];
        assert(quoted@ =~= seq![c]);
        Err(fail_quoting(s, q, "expected `", &quoted, "`"))
    }
}

/// Consumes the text `t` exactly.
fn read_literal(s: &Vec<char>, p: usize, t: &[char]) -> (r: Result<usize, DecodeError>)
    requires
        p <= s@.len(),
    ensures
        r matches Ok(q) ==> grammar::literal(s@, p as int, t@) == Some(q as int) && q <= s@.len(),
        r is Err ==> grammar::literal(s@, p as int, t@) is None,
        r matches Err(e) ==> fails(s@, e, literal_fail(p as int, t@)),
{
    if t.len() > s.len() - p {
        return Err(fail_quoting(s, p, "expected `", t, "`"));
    }
    let n = s.len();
    let mut i: usize = 0;
    let mut j: usize = p;
    while i < t.len()
        invariant
            n == s@.len(),
            i <= t@.len(),
            j == p + i,
            p + t@.len() <= s@.len(),
            forall|k: int| 0 <= k < i ==> s@[p + k] == t@[k],
        decreases t@.len() - i,
    {
        if s[j] != t[i] {
            proof {
                assert(s@.subrange(p as int, p + t@.len())[i as int] != t@[i as int]);
            }
            return Err(fail_quoting(s, p, "expected `", t, "`"));
        }
        i = i + 1;
        j = j + 1;
    }
    proof {
        assert(s@.subrange(p as int, p + t@.len()) =~= t@);
    }
    Ok(p + t.len())
}

// ── strings ─────────────────────────────────────────────────────

/// The value of a hexadecimal digit.
fn hex_val(c: char) -> (r: Option<u32>)
    ensures
        r matches Some(v) ==> grammar::hex_val(c) == Some(v as nat) && v < 16,
        r is None ==> grammar::hex_val(c) is None,
{
    if '0' <= c && c <= '9' {
        Some((c as u32) - ('0' as u32))
    } else if 'a' <= c && c <= 'f' {
        Some((c as u32) - ('a' as u32) + 10)
    } else if 'A' <= c && c <= 'F' {
        Some((c as u32) - ('A' as u32) + 10)
    } else {
        None
    }
}

/// Reads the four characters of a `\uXXXX` escape.
fn read_hex4(s: &Vec<char>, p: usize) -> (r: Result<(u32, usize), DecodeError>)
    requires
        p <= s@.len(),
    ensures
        r matches Ok((v, q)) ==> grammar::hex4(s@, p as int) == Some((v as nat, q as int)) && q
            <= s@.len() && q == p + 4 && v < 0x10000,
        r is Err ==> grammar::hex4(s@, p as int) is None,
        r matches Err(e) ==> fails(s@, e, hex4_fail(s@, p as int)),
{
    let n = s.len();
    if n - p < 4 {
        return Err(fail(s, p, "truncated unicode escape"));
    }
    let start = if s[p] == '+' {
        p + 1
    } else {
        p
    };
    let ghost d = s@.subrange(p as int, p + 4);
    proof {
        if s@[p as int] == '+' {
            assert(d.drop_first() =~= s@.subrange(start as int, p + 4));
        } else {
            assert(d =~= s@.subrange(start as int, p + 4));
        }
    }
    let mut v: u32 = 0;
    let mut i: usize = start;
    while i < p + 4
        invariant
            n == s@.len(),
            p + 4 <= n,
            start <= i <= p + 4,
            start == p || start == p + 1,
            grammar::hex_num(s@.subrange(start as int, i as int)) == Some(v as nat),
            i - start == 0 ==> v == 0,
            i - start == 1 ==> v < 16,
            i - start == 2 ==> v < 256,
            i - start == 3 ==> v < 4096,
            i - start == 4 ==> v < 65536,
            grammar::hex4(s@, p as int) == (match grammar::hex_num(s@.subrange(start as int, p + 4)) {
                Some(w) => Some((w, p + 4)),
                None => None,
            }),
        decreases p + 4 - i,
    {
        proof {
            assert(s@.subrange(start as int, i + 1).drop_last() =~= s@.subrange(start as int, i as int));
        }
        match hex_val(s[i]) {
            Some(dv) => {
                v = v * 16 + dv;
            },
            None => {
                proof {
                    assert(s@.subrange(start as int, i + 1).last() == s@[i as int]);
                    lemma_hex_num_prefix(s@.subrange(start as int, p + 4), (i - start) as int);
                    assert(s@.subrange(start as int, p + 4).take(i - start + 1) =~= s@.subrange(start as int, i + 1));
                }
                return Err(fail(s, p, "invalid unicode escape"));
            },
        }
        i = i + 1;
    }
    Ok((v, p + 4))
}

/// A run of hexadecimal digits with a non-digit in its first `k + 1`
/// characters has no value.
proof fn lemma_hex_num_prefix(d: Seq<char>, k: int)
    requires
        0 <= k < d.len(),
        grammar::hex_num(d.take(k + 1)) is None,
    ensures
        grammar::hex_num(d) is None,
    decreases d.len(),
{
    if d.len() > k + 1 {
        assert(d.drop_last().take(k + 1) =~= d.take(k + 1));
        lemma_hex_num_prefix(d.drop_last(), k);
    } else {
        assert(d.take(k + 1) =~= d);
    }
}

/// Reads the digits of a `\u` escape, pairing surrogates.
fn read_unicode_escape(s: &Vec<char>, p: usize) -> (r: Result<(char, usize), DecodeError>)
    requires
        p <= s@.len(),
    ensures
        r matches Ok((c, q)) ==> grammar::unicode_escape(s@, p as int) == Some((c, q as int)) && p
            < q <= s@.len(),
        r is Err ==> grammar::unicode_escape(s@, p as int) is None,
        r matches Err(e) ==> fails(s@, e, unicode_fail(s@, p as int)),
{
    let (high, q) = match read_hex4(s, p) {
        Ok(x) => x,
        Err(e) => {
            return Err(e);
        },
    };
    if 0xD800 <= high && high < 0xDC00 {
        let q2 = match read_literal(s, q, &['\\', 'u']) {
            Ok(x) => x,
            Err(e) => {
                return Err(e);
            },
        };
        let (low, q3) = match read_hex4(s, q2) {
            Ok(x) => x,
            Err(e) => {
                return Err(e);
            },
        };
        if !(0xDC00 <= low && low < 0xE000) {
            return Err(fail(s, q3, "unpaired surrogate escape"));
        }
        let code = 0x10000 + (high - 0xD800) * 1024 + (low - 0xDC00);
        match char_from_code(code) {
            Some(c) => Ok((c, q3)),
            None => Err(fail(s, q3, "invalid surrogate pair")),
        }
    } else {
        match char_from_code(high) {
            Some(c) => Ok((c, q)),
            None => Err(fail(s, q, "invalid unicode escape")),
        }
    }
}

/// Reads one string escape, the leading `\` already consumed.
fn read_escape(s: &Vec<char>, p: usize) -> (r: Result<(char, usize), DecodeError>)
    requires
        p <= s@.len(),
    ensures
        r matches Ok((c, q)) ==> grammar::escape(s@, p as int) == Some((c, q as int)) && p < q
            <= s@.len(),
        r is Err ==> grammar::escape(s@, p as int) is None,
        r matches Err(e) ==> fails(s@, e, escape_fail(s@, p as int)),
{
    if p >= s.len() {
        return Err(fail(s, p, "unterminated escape"));
    }
    let b = s[p];
    if b == '"' {
        Ok(('"', p + 1))
    } else if b == '\\' {
        Ok(('\\', p + 1))
    } else if b == '/' {
        Ok(('/', p + 1))
    } else if b == 'b' {
        Ok(('\u{8}', p + 1))
    } else if b == 'f' {
        Ok(('\u{c}', p + 1))
    } else if b == 'n' {
        Ok(('\n', p + 1))
    } else if b == 'r' {
        Ok(('\r', p + 1))
    } else if b == 't' {
        Ok(('\t', p + 1))
    } else if b == 'u' {
        read_unicode_escape(s, p + 1)
    } else {
        let quoted = ['\\', b];
        Err(fail_quoting(s, p + 1, "unknown escape `", &quoted, "`"))
    }
}

/// Reads the body of a string literal through its closing quote.
fn read_str_body(s: &Vec<char>, p: usize) -> (r: Result<(String, usize), DecodeError>)
    requires
        p <= s@.len(),
    ensures
        r matches Ok((t, q)) ==> grammar::str_body(s@, p as int) == Some((t@, q as int)) && p < q
            <= s@.len(),
        r is Err ==> grammar::str_body(s@, p as int) is None,
        r matches Err(e) ==> fails(s@, e, str_body_fail(s@, p as int)),
{
    let mut out = String::new();
    let mut i: usize = p;
    loop
        invariant
            p <= i <= s@.len(),
            grammar::str_body(s@, p as int) == match grammar::str_body(s@, i as int) {
                Some((rest, r)) => Some((out@ + rest, r)),
                None => None,
            },
            str_body_fail(s@, p as int) == str_body_fail(s@, i as int),
        decreases s@.len() - i,
    {
        if i >= s.len() {
            return Err(fail(s, i, "unterminated string"));
        }
        let c = s[i];
        if c == '"' {
            proof {
                assert(out@ + Seq::<char>::empty() =~= out@);
            }
            return Ok((out, i + 1));
        } else if c == '\\' {
            match read_escape(s, i + 1) {
                Ok((e, q)) => {
                    let ghost before = out@;
                    push_char(&mut out, e);
                    proof {
                        match grammar::str_body(s@, q as int) {
                            Some((rest, r)) => {
                                assert(before + (seq![e] + rest) =~= out@ + rest);
                            },
                            None => {},
                        }
                    }
                    i = q;
                },
                Err(e) => {
                    return Err(e);
                },
            }
        } else if (c as u32) < 0x20 {
            return Err(fail(s, i, "raw control character in string"));
        } else {
            let ghost before = out@;
            push_char(&mut out, c);
            proof {
                match grammar::str_body(s@, i + 1) {
                    Some((rest, r)) => {
                        assert(before + (seq![c] + rest) =~= out@ + rest);
                    },
                    None => {},
                }
            }
            i = i + 1;
        }
    }
}

/// Reads a string literal after any whitespace.
fn read_string(s: &Vec<char>, p: usize) -> (r: Result<(String, usize), DecodeError>)
    requires
        p <= s@.len(),
    ensures
        r matches Ok((t, q)) ==> grammar::string(s@, p as int) == Some((t@, q as int)) && p < q
            <= s@.len(),
        r is Err ==> grammar::string(s@, p as int) is None,
        r matches Err(e) ==> fails(s@, e, string_fail(s@, p as int)),
{
    match read_expect(s, p, '"') {
        Ok(q) => read_str_body(s, q),
        Err(e) => Err(e),
    }
}

/// Reads the object key `name` and its `:`.
fn read_key(s: &Vec<char>, p: usize, name: &[char]) -> (r: Result<usize, DecodeError>)
    requires
        p <= s@.len(),
    ensures
        r matches Ok(q) ==> grammar::key(s@, p as int, name@) == Some(q as int) && p < q <= s@.len(),
        r is Err ==> grammar::key(s@, p as int, name@) is None,
        r matches Err(e) ==> fails(s@, e, key_fail(s@, p as int, name@)),
{
    let (k, q) = match read_string(s, p) {
        Ok(x) => x,
        Err(e) => {
            return Err(e);
        },
    };
    let kc = chars_of(k.as_str());
    if !chars_eq(kc.as_slice(), name) {
        let mut message = "expected key `".to_owned();
        push_chars(&mut message, name);
        let mid = chars_of("`, found `");
        push_chars(&mut message, mid.as_slice());
        push_chars(&mut message, kc.as_slice());
        push_char(&mut message, '`');
        proof {
            assert(message@ =~= "expected key `"@ + name@ + "`, found `"@ + k@ + seq!['`']);
        }
        return Err(DecodeError { offset: byte_offset(s, q), message });
    }
    read_expect(s, q, ':')
}

// ── numbers ─────────────────────────────────────────────────────

/// Whether `c` is an ASCII decimal digit.
fn is_digit(c: char) -> (r: bool)
    ensures
        r == crate::wire::encode::is_digit(c),
{
    '0' <= c && c <= '9'
}

/// Whether `c` may occur in a number's text.
fn is_num_char(c: char) -> (r: bool)
    ensures
        r == grammar::is_num_char(c),
{
    is_digit(c) || c == '.' || c == 'e' || c == 'E' || c == '+' || c == '-'
}

/// Reads the text of a number.
fn read_number_str(s: &Vec<char>, p: usize) -> (r: Result<(Vec<char>, usize), DecodeError>)
    requires
        p <= s@.len(),
    ensures
        r matches Ok((t, q)) ==> grammar::number_str(s@, p as int) == Some((t@, q as int)) && p < q
            <= s@.len(),
        r is Err ==> grammar::number_str(s@, p as int) is None,
        r matches Err(e) ==> fails(s@, e, (p as int, "expected a number"@)),
{
    let mut q = p;
    if q < s.len() && s[q] == '-' {
        q = q + 1;
    }
    let ghost p1 = q as int;
    while q < s.len() && is_num_char(s[q])
        invariant
            p <= p1 <= q <= s@.len(),
            p1 + grammar::num_run(s@, p1) == q + grammar::num_run(s@, q as int),
        decreases s@.len() - q,
    {
        q = q + 1;
    }
    if q == p {
        return Err(fail(s, p, "expected a number"));
    }
    let mut t: Vec<char> = Vec::new();
    let mut i = p;
    while i < q
        invariant
            p <= i <= q <= s@.len(),
            t@ == s@.subrange(p as int, i as int),
        decreases q - i,
    {
        t.push(s[i]);
        proof {
            assert(s@.subrange(p as int, i + 1) =~= s@.subrange(p as int, i as int).push(s@[i as int]));
        }
        i = i + 1;
    }
    Ok((t, q))
}

/// The value of the digits of `d` grows with every digit appended.
proof fn lemma_digits_val_prefix(d: Seq<char>, k: int)
    requires
        0 <= k <= d.len(),
        grammar::all_digits(d),
    ensures
        grammar::digits_val(d.take(k)) <= grammar::digits_val(d),
    decreases d.len() - k,
{
    if k < d.len() {
        lemma_digits_val_prefix(d, k + 1);
        assert(d.take(k + 1).drop_last() =~= d.take(k));
        assert(d.take(k + 1).last() == d[k]);
        assert(crate::wire::encode::is_digit(d[k]));
    } else {
        assert(d.take(k) =~= d);
    }
}

/// An integer's text parsed as `i64`.
fn parse_int(t: &Vec<char>) -> (r: Option<i64>)
    ensures
        r == grammar::parse_int(t@),
{
    let n = t.len();
    let neg = n > 0 && t[0] == '-';
    let start: usize = if n > 0 && (t[0] == '-' || t[0] == '+') {
        1
    } else {
        0
    };
    let ghost d = if start == 1 {
        t@.drop_first()
    } else {
        t@
    };
    proof {
        assert(d =~= t@.subrange(start as int, n as int));
    }
    if start == n {
        return None;
    }
    let mut acc: u128 = 0;
    let mut i = start;
    while i < n
        invariant
            n == t@.len(),
            start <= i <= n,
            d == t@.subrange(start as int, n as int),
            d == (if t@.len() > 0 && (t@[0] == '-' || t@[0] == '+') {
                t@.drop_first()
            } else {
                t@
            }),
            acc == grammar::digits_val(d.take(i - start)),
            acc <= 0x1_0000_0000_0000_0000u128,
            forall|k: int| 0 <= k < i - start ==> crate::wire::encode::is_digit(#[trigger] d[k]),
        decreases n - i,
    {
        let c = t[i];
        if !is_digit(c) {
            proof {
                assert(d[i - start] == c);
                assert(!crate::wire::encode::is_digit(d[i - start]));
            }
            return None;
        }
        proof {
            assert(d.take(i - start + 1).drop_last() =~= d.take(i - start));
            assert(d.take(i - start + 1).last() == c);
        }
        acc = acc * 10 + ((c as u32) - ('0' as u32)) as u128;
        i = i + 1;
        if acc > 0x1_0000_0000_0000_0000u128 {
            proof {
                if grammar::all_digits(d) {
                    lemma_digits_val_prefix(d, i - start);
                }
            }
            return None;
        }
    }
    proof {
        assert(d.take(n - start) =~= d);
    }
    if neg {
        if acc <= 0x8000_0000_0000_0000u128 {
            Some((0i128 - (acc as i128)) as i64)
        } else {
            None
        }
    } else {
        if acc <= 0x7fff_ffff_ffff_ffffu128 {
            Some(acc as i64)
        } else {
            None
        }
    }
}

/// The length of the run of digits at `i`.
fn digit_run(t: &Vec<char>, i: usize) -> (r: usize)
    requires
        i <= t@.len(),
    ensures
        r == grammar::digit_run(t@, i as int),
        i + r <= t@.len(),
{
    let mut j = i;
    while j < t.len() && is_digit(t[j])
        invariant
            i <= j <= t@.len(),
            i + grammar::digit_run(t@, i as int) == j + grammar::digit_run(t@, j as int),
        decreases t@.len() - j,
    {
        j = j + 1;
    }
    j - i
}

/// Whether `t` is a decimal number in the syntax of [`grammar::float_syntax`].
fn is_float_syntax(t: &Vec<char>) -> (r: bool)
    ensures
        r == grammar::float_syntax(t@),
{
    let n = t.len();
    let a: usize = if n > 0 && (t[0] == '+' || t[0] == '-') {
        1
    } else {
        0
    };
    let d1 = digit_run(t, a);
    let i = a + d1;
    let dot = i < n && t[i] == '.';
    let d2: usize = if dot {
        digit_run(t, i + 1)
    } else {
        0
    };
    let i2: usize = if dot {
        i + 1 + d2
    } else {
        i
    };
    if !(d1 > 0 || d2 > 0) {
        return false;
    }
    if i2 == n {
        return true;
    }
    if !(t[i2] == 'e' || t[i2] == 'E') {
        return false;
    }
    let j: usize = if i2 + 1 < n && (t[i2 + 1] == '+' || t[i2 + 1] == '-') {
        i2 + 2
    } else {
        i2 + 1
    };
    let d3 = digit_run(t, j);
    d3 > 0 && j + d3 == n
}

/// Whether a number's text has fractional or exponent syntax.
fn has_frac(t: &Vec<char>) -> (r: bool)
    ensures
        r == grammar::has_frac(t@),
{
    let mut i: usize = 0;
    while i < t.len()
        invariant
            i <= t@.len(),
            forall|k: int| 0 <= k < i ==> t@[k] != '.' && t@[k] != 'e' && t@[k] != 'E',
        decreases t@.len() - i,
    {
        if t[i] == '.' || t[i] == 'e' || t[i] == 'E' {
            proof {
                assert(t@[i as int] == t[i as int]);
            }
            return true;
        }
        i = i + 1;
    }
    false
}

// ── values ──────────────────────────────────────────────────────

/// The characters of `t` as a string.
fn string_of(t: &Vec<char>) -> (r: String)
    ensures
        r@ == t@,
{
    let mut r = String::new();
    push_chars(&mut r, t.as_slice());
    r
}

/// The index of the first constructor named `name`.
fn find_ctor(ctors: &Vec<(String, Vec<Ty>)>, name: &[char]) -> (r: Option<usize>)
    ensures
        r matches Some(i) ==> grammar::find_ctor(ctors_v(ctors@), name@, 0) == Some(i as int) && i
            < ctors@.len(),
        r is None ==> grammar::find_ctor(ctors_v(ctors@), name@, 0) is None,
{
    proof {
        lemma_ctors_v(ctors@);
    }
    let mut i: usize = 0;
    while i < ctors.len()
        invariant
            i <= ctors@.len(),
            ctors_v(ctors@).len() == ctors@.len(),
            forall|k: int| 0 <= k < ctors@.len() ==> #[trigger] ctors_v(ctors@)[k] == (ctors@[k].0@, tys_v(ctors@[k].1@)),
            grammar::find_ctor(ctors_v(ctors@), name@, 0) == grammar::find_ctor(
                ctors_v(ctors@),
                name@,
                i as int,
            ),
        decreases ctors@.len() - i,
    {
        let c = chars_of(ctors[i].0.as_str());
        assert(ctors_v(ctors@)[i as int] == (ctors@[i as int].0@, tys_v(ctors@[i as int].1@)));
        if chars_eq(c.as_slice(), name) {
            return Some(i);
        }
        i = i + 1;
    }
    None
}

/// Reads `{"ctor":"Name","args":[`: the constructor's index and the
/// position inside the array.
fn read_ctor_head(s: &Vec<char>, p: usize, ctors: &Vec<(String, Vec<Ty>)>) -> (r: Result<
    (usize, usize),
    DecodeError,
>)
    requires
        p <= s@.len(),
    ensures
        r matches Ok((idx, q)) ==> grammar::ctor_head(s@, p as int, ctors_v(ctors@)) == Some(
            (idx as int, q as int),
        ) && p < q <= s@.len() && idx < ctors@.len(),
        r is Err ==> grammar::ctor_head(s@, p as int, ctors_v(ctors@)) is None,
        r matches Err(e) ==> fails(s@, e, ctor_head_fail(s@, p as int, ctors_v(ctors@))),
{
    let q1 = match read_expect(s, p, '{') {
        Ok(q) => q,
        Err(e) => {
            return Err(e);
        },
    };
    let q2 = match read_key(s, read_ws(s, q1), &['c', 't', 'o', 'r']) {
        Ok(q) => q,
        Err(e) => {
            return Err(e);
        },
    };
    let (name, q3) = match read_string(s, q2) {
        Ok(x) => x,
        Err(e) => {
            return Err(e);
        },
    };
    let nc = chars_of(name.as_str());
    let idx = match find_ctor(ctors, nc.as_slice()) {
        Some(i) => i,
        None => {
            return Err(fail_quoting(s, q3, "`", nc.as_slice(), "` is not a constructor of the type"));
        },
    };
    let q4 = match read_expect(s, q3, ',') {
        Ok(q) => q,
        Err(e) => {
            return Err(e);
        },
    };
    let q5 = match read_key(s, read_ws(s, q4), &['a', 'r', 'g', 's']) {
        Ok(q) => q,
        Err(e) => {
            return Err(e);
        },
    };
    match read_expect(s, q5, '[') {
        Ok(q6) => Ok((idx, q6)),
        Err(e) => Err(e),
    }
}

/// Reads a value of type `ty`.
fn read_value(s: &Vec<char>, p: usize, ty: &Ty, adts: &AdtTable) -> (r: Result<
    (WireValue, usize),
    DecodeError,
>)
    requires
        p <= s@.len(),
    ensures
        r matches Ok((v, q)) ==> grammar::value(s@, p as int, ty@, adts@) == Some((v@, q as int))
            && p < q <= s@.len(),
        r is Err ==> grammar::value(s@, p as int, ty@, adts@) is None,
        r matches Err(e) ==> fails(s@, e, value_fail(s@, p as int, ty@, adts@)),
    decreases s@.len() - p, 1nat,
{
    let q = read_ws(s, p);
    proof {
        grammar::lemma_skip_ws_idem(s@, p as int);
    }
    let t = strip(ty);
    match t {
        Ty::Con(name, args) => {
            proof {
                assert(grammar::skip_ws(s@, q as int) == q);
            }
            read_con(s, q, name, args, adts)
        },
        Ty::Tuple(es) => {
            if es.len() == 0 {
                proof {
                    assert(tys_v(es@).len() == 0) by {
                        lemma_tys_v(es@);
                    }
                }
                match read_literal(s, q, &['n', 'u', 'l', 'l']) {
                    Ok(r) => {
                        proof {
                            assert(seq!['n', 'u', 'l', 'l'] =~= grammar::null_text());
                        }
                        Ok((WireValue::Unit, r))
                    },
                    Err(e) => {
                        proof {
                            assert(seq!['n', 'u', 'l', 'l'] =~= grammar::null_text());
                        }
                        Err(e)
                    },
                }
            } else {
                proof {
                    lemma_tys_v(es@);
                }
                let q1 = match read_expect(s, q, '[') {
                    Ok(x) => x,
                    Err(e) => {
                        return Err(e);
                    },
                };
                let (items, q2) = match read_fixed(s, q1, es, adts) {
                    Ok(x) => x,
                    Err(e) => {
                        return Err(e);
                    },
                };
                match read_expect(s, q2, ']') {
                    Ok(q3) => Ok((WireValue::Tuple(items), q3)),
                    Err(e) => Err(e),
                }
            }
        },
        Ty::Record(fs) => {
            let q1 = match read_expect(s, q, '{') {
                Ok(x) => x,
                Err(e) => {
                    return Err(e);
                },
            };
            let (items, q2) = match read_fields(s, q1, fs, adts) {
                Ok(x) => x,
                Err(e) => {
                    return Err(e);
                },
            };
            match read_expect(s, q2, '}') {
                Ok(q3) => Ok((WireValue::Record(items), q3)),
                Err(e) => Err(e),
            }
        },
        Ty::Var(_) => Err(fail(s, q, "cannot decode at an uninstantiated type variable")),
        _ => Err(fail(s, q, "function types are not wire-representable")),
    }
}

/// Reads a value of the constructed type `name<args>`: a built-in, or an
/// ADT through the table. `q` is past any whitespace.
fn read_con(s: &Vec<char>, q: usize, name: &String, args: &Vec<Ty>, adts: &AdtTable) -> (r: Result<
    (WireValue, usize),
    DecodeError,
>)
    requires
        q <= s@.len(),
        grammar::skip_ws(s@, q as int) == q,
    ensures
        r matches Ok((v, q2)) ==> grammar::value(
            s@,
            q as int,
            TyV::Con(name@, tys_v(args@)),
            adts@,
        ) == Some((v@, q2 as int)) && q < q2 <= s@.len(),
        r is Err ==> grammar::value(s@, q as int, TyV::Con(name@, tys_v(args@)), adts@) is None,
        r matches Err(e) ==> fails(s@, e, value_fail(s@, q as int, TyV::Con(name@, tys_v(args@)), adts@)),
    decreases s@.len() - q, 0nat,
{
    proof {
        lemma_tys_v(args@);
    }
    let nc = chars_of(name.as_str());
    if args.len() == 0 && chars_eq(nc.as_slice(), &['I', 'n', 't']) {
        let (t, r) = match read_number_str(s, q) {
            Ok(x) => x,
            Err(e) => {
                return Err(e);
            },
        };
        if has_frac(&t) {
            return Err(fail_quoting(s, r, "`", t.as_slice(), "` is not an integer"));
        }
        match parse_int(&t) {
            Some(i) => Ok((WireValue::Int(i), r)),
            None => Err(fail_quoting(s, r, "`", t.as_slice(), "` is not an integer in i64 range")),
        }
    } else if args.len() == 0 && chars_eq(nc.as_slice(), &['F', 'l', 'o', 'a', 't']) {
        let (t, r) = match read_number_str(s, q) {
            Ok(x) => x,
            Err(e) => {
                return Err(e);
            },
        };
        if is_float_syntax(&t) {
            Ok((WireValue::Float(string_of(&t)), r))
        } else {
            Err(fail_quoting(s, r, "`", t.as_slice(), "` is not a number"))
        }
    } else if args.len() == 0 && chars_eq(nc.as_slice(), &['S', 't', 'r', 'i', 'n', 'g']) {
        match read_string(s, q) {
            Ok((t, r)) => Ok((WireValue::String(t), r)),
            Err(e) => Err(e),
        }
    } else if args.len() == 1 && chars_eq(nc.as_slice(), &['L', 'i', 's', 't']) {
        let q1 = match read_expect(s, q, '[') {
            Ok(x) => x,
            Err(e) => {
                return Err(e);
            },
        };
        let q2 = read_ws(s, q1);
        if q2 < s.len() && s[q2] == ']' {
            proof {
                assert(vals_v(Seq::<WireValue>::empty()) =~= Seq::<Val>::empty());
            }
            return Ok((WireValue::List(Vec::new()), q2 + 1));
        }
        let (items, q3) = match read_list(s, q2, &args[0], adts) {
            Ok(x) => x,
            Err(e) => {
                return Err(e);
            },
        };
        match read_expect(s, q3, ']') {
            Ok(q4) => Ok((WireValue::List(items), q4)),
            Err(e) => Err(e),
        }
    } else {
        let ctors = match adts.ctors(nc.as_slice()) {
            Some(c) => c,
            None => {
                return Err(fail_quoting(s, q, "no constructors known for type `", nc.as_slice(), "`"));
            },
        };
        let (idx, q1) = match read_ctor_head(s, q, ctors) {
            Ok(x) => x,
            Err(e) => {
                return Err(e);
            },
        };
        proof {
            lemma_ctors_v(ctors@);
            grammar::lemma_ctor_head(s@, q as int, ctors_v(ctors@));
        }
        let fields = subst_tys(&ctors[idx].1, args);
        let (items, q2) = match read_fixed(s, q1, &fields, adts) {
            Ok(x) => x,
            Err(e) => {
                return Err(e);
            },
        };
        let q3 = match read_expect(s, q2, ']') {
            Ok(x) => x,
            Err(e) => {
                return Err(e);
            },
        };
        match read_expect(s, q3, '}') {
            Ok(q4) => Ok((WireValue::Ctor(ctors[idx].0.clone(), items), q4)),
            Err(e) => Err(e),
        }
    }
}

/// Reads a fixed-arity array body of types `tys`.
fn read_fixed(s: &Vec<char>, p: usize, tys: &Vec<Ty>, adts: &AdtTable) -> (r: Result<
    (Vec<WireValue>, usize),
    DecodeError,
>)
    requires
        p <= s@.len(),
    ensures
        r matches Ok((vs, q)) ==> grammar::fixed_items(s@, p as int, tys_v(tys@), 0, adts@) == Some(
            (vals_v(vs@), q as int),
        ) && p <= q <= s@.len(),
        r is Err ==> grammar::fixed_items(s@, p as int, tys_v(tys@), 0, adts@) is None,
        r matches Err(e) ==> fails(s@, e, fixed_fail(s@, p as int, tys_v(tys@), 0, adts@)),
    decreases s@.len() - p, 2nat,
{
    proof {
        lemma_tys_v(tys@);
    }
    let ghost ts = tys_v(tys@);
    let mut items: Vec<WireValue> = Vec::new();
    let mut cur = p;
    let mut i: usize = 0;
    while i < tys.len()
        invariant
            p <= cur <= s@.len(),
            i <= tys@.len(),
            i == 0 ==> cur == p,
            ts == tys_v(tys@),
            ts.len() == tys@.len(),
            forall|k: int| 0 <= k < tys@.len() ==> #[trigger] ts[k] == tys@[k]@,
            grammar::fixed_items(s@, p as int, ts, 0, adts@) == match grammar::fixed_items(
                s@,
                cur as int,
                ts,
                i as int,
                adts@,
            ) {
                Some((vs, r)) => Some((vals_v(items@) + vs, r)),
                None => None,
            },
            fixed_fail(s@, p as int, ts, 0, adts@) == fixed_fail(s@, cur as int, ts, i as int, adts@),
        decreases tys@.len() - i,
    {
        let p1 = if i > 0 {
            match read_expect(s, cur, ',') {
                Ok(x) => x,
                Err(e) => {
                    return Err(e);
                },
            }
        } else {
            cur
        };
        assert(tys@[i as int] == tys[i as int]);
        let (v, q) = match read_value(s, p1, &tys[i], adts) {
            Ok(x) => x,
            Err(e) => {
                return Err(e);
            },
        };
        let ghost before = items@;
        items.push(v);
        proof {
            assert(items@.drop_last() =~= before);
            match grammar::fixed_items(s@, q as int, ts, i + 1, adts@) {
                Some((vs, r)) => {
                    assert(vals_v(before) + (seq![v@] + vs) =~= vals_v(items@) + vs);
                },
                None => {},
            }
        }
        cur = q;
        i = i + 1;
    }
    proof {
        assert(vals_v(items@) + Seq::<Val>::empty() =~= vals_v(items@));
    }
    Ok((items, cur))
}

/// Reads the fields of a record body with field types `fs`.
fn read_fields(s: &Vec<char>, p: usize, fs: &Vec<(String, Ty)>, adts: &AdtTable) -> (r: Result<
    (Vec<(String, WireValue)>, usize),
    DecodeError,
>)
    requires
        p <= s@.len(),
    ensures
        r matches Ok((vs, q)) ==> grammar::rec_fields(s@, p as int, fields_ty_v(fs@), 0, adts@)
            == Some((fields_v(vs@), q as int)) && p <= q <= s@.len(),
        r is Err ==> grammar::rec_fields(s@, p as int, fields_ty_v(fs@), 0, adts@) is None,
        r matches Err(e) ==> fails(s@, e, fields_fail(s@, p as int, fields_ty_v(fs@), 0, adts@)),
    decreases s@.len() - p, 2nat,
{
    proof {
        lemma_fields_ty_v(fs@);
    }
    let ghost ts = fields_ty_v(fs@);
    let mut items: Vec<(String, WireValue)> = Vec::new();
    let mut cur = p;
    let mut i: usize = 0;
    while i < fs.len()
        invariant
            p <= cur <= s@.len(),
            i <= fs@.len(),
            i == 0 ==> cur == p,
            ts == fields_ty_v(fs@),
            ts.len() == fs@.len(),
            forall|k: int| 0 <= k < fs@.len() ==> #[trigger] ts[k] == (fs@[k].0@, fs@[k].1@),
            grammar::rec_fields(s@, p as int, ts, 0, adts@) == match grammar::rec_fields(
                s@,
                cur as int,
                ts,
                i as int,
                adts@,
            ) {
                Some((vs, r)) => Some((fields_v(items@) + vs, r)),
                None => None,
            },
            fields_fail(s@, p as int, ts, 0, adts@) == fields_fail(s@, cur as int, ts, i as int, adts@),
        decreases fs@.len() - i,
    {
        let p1 = if i > 0 {
            match read_expect(s, cur, ',') {
                Ok(x) => x,
                Err(e) => {
                    return Err(e);
                },
            }
        } else {
            cur
        };
        assert(fs@[i as int] == fs[i as int]);
        let (label, fty) = &fs[i];
        let lc = chars_of(label.as_str());
        let p2 = match read_key(s, read_ws(s, p1), lc.as_slice()) {
            Ok(x) => x,
            Err(e) => {
                return Err(e);
            },
        };
        let (v, q) = match read_value(s, p2, fty, adts) {
            Ok(x) => x,
            Err(e) => {
                return Err(e);
            },
        };
        let ghost before = items@;
        items.push((label.clone(), v));
        proof {
            assert(items@.drop_last() =~= before);
            match grammar::rec_fields(s@, q as int, ts, i + 1, adts@) {
                Some((vs, r)) => {
                    assert(fields_v(before) + (seq![(ts[i as int].0, v@)] + vs) =~= fields_v(items@)
                        + vs);
                },
                None => {},
            }
        }
        cur = q;
        i = i + 1;
    }
    proof {
        assert(fields_v(items@) + Seq::<(Seq<char>, Val)>::empty() =~= fields_v(items@));
    }
    Ok((items, cur))
}

/// Reads the comma-separated items of a non-empty list of `elem`.
fn read_list(s: &Vec<char>, p: usize, elem: &Ty, adts: &AdtTable) -> (r: Result<
    (Vec<WireValue>, usize),
    DecodeError,
>)
    requires
        p <= s@.len(),
    ensures
        r matches Ok((vs, q)) ==> grammar::list_items(s@, p as int, elem@, adts@) == Some(
            (vals_v(vs@), q as int),
        ) && p <= q <= s@.len(),
        r is Err ==> grammar::list_items(s@, p as int, elem@, adts@) is None,
        r matches Err(e) ==> fails(s@, e, list_fail(s@, p as int, elem@, adts@)),
    decreases s@.len() - p, 2nat,
{
    let mut items: Vec<WireValue> = Vec::new();
    let mut cur = p;
    loop
        invariant
            p <= cur <= s@.len(),
            grammar::list_items(s@, p as int, elem@, adts@) == match grammar::list_items(
                s@,
                cur as int,
                elem@,
                adts@,
            ) {
                Some((vs, r)) => Some((vals_v(items@) + vs, r)),
                None => None,
            },
            list_fail(s@, p as int, elem@, adts@) == list_fail(s@, cur as int, elem@, adts@),
        decreases s@.len() - cur,
    {
        let (v, q) = match read_value(s, cur, elem, adts) {
            Ok(x) => x,
            Err(e) => {
                return Err(e);
            },
        };
        let ghost before = items@;
        items.push(v);
        proof {
            assert(items@.drop_last() =~= before);
        }
        let q1 = read_ws(s, q);
        if q1 < s.len() && s[q1] == ',' {
            proof {
                match grammar::list_items(s@, q1 + 1, elem@, adts@) {
                    Some((vs, r)) => {
                        assert(vals_v(before) + (seq![v@] + vs) =~= vals_v(items@) + vs);
                    },
                    None => {},
                }
            }
            cur = q1 + 1;
        } else {
            proof {
                assert(vals_v(before) + seq![v@] =~= vals_v(items@));
            }
            return Ok((items, q1));
        }
    }
}

/// Where and why decoding a value of type `ty` from the whole of `s`
/// fails: in the value, or at trailing input after it.
pub open spec fn decode_value_fail(s: Seq<char>, ty: TyV, adts: grammar::AdtMap) -> (int, Seq<char>) {
    match grammar::value(s, grammar::skip_ws(s, 0), ty, adts) {
        None => value_fail(s, grammar::skip_ws(s, 0), ty, adts),
        Some((_, q)) => (grammar::skip_ws(s, q), "trailing input after the value"@),
    }
}

/// Decodes a value against its expected type, validating shape, labels,
/// constructor names, and arities as it goes.
pub fn decode_value(input: &str, ty: &Ty, adts: &AdtTable) -> (r: Result<WireValue, DecodeError>)
    ensures
        r matches Ok(v) ==> grammar::decode_value(input@, ty@, adts@) == Some(v@),
        r is Err ==> grammar::decode_value(input@, ty@, adts@) is None,
        r matches Err(e) ==> fails(input@, e, decode_value_fail(input@, ty@, adts@)),
{
    let s = chars_of(input);
    let p = read_ws(&s, 0);
    let (v, q) = match read_value(&s, p, ty, adts) {
        Ok(x) => x,
        Err(e) => {
            return Err(e);
        },
    };
    let r = read_ws(&s, q);
    if r == s.len() {
        Ok(v)
    } else {
        Err(fail(&s, r, "trailing input after the value"))
    }
}

// ── self-describing values ──────────────────────────────────────

/// Inserting past keys that order before the new one leaves them in front.
proof fn lemma_meta_insert_skip(m: Seq<(Seq<char>, Meta)>, k: Seq<char>, v: Meta, i: int)
    requires
        0 <= i <= m.len(),
        forall|j: int| 0 <= j < i ==> #[trigger] m[j].0 != k && !grammar::str_lt(k, m[j].0),
    ensures
        grammar::meta_insert(m, k, v) == m.take(i) + grammar::meta_insert(m.skip(i), k, v),
    decreases i,
{
    if i == 0 {
        assert(m.skip(0) =~= m);
        assert(m.take(0) + grammar::meta_insert(m, k, v) =~= grammar::meta_insert(m, k, v));
    } else {
        let t = m.drop_first();
        assert forall|j: int| 0 <= j < i - 1 implies #[trigger] t[j].0 != k && !grammar::str_lt(k, t[j].0) by {
            assert(t[j] == m[j + 1]);
        }
        lemma_meta_insert_skip(t, k, v, i - 1);
        assert(m[0].0 != k && !grammar::str_lt(k, m[0].0));
        assert(t.skip(i - 1) =~= m.skip(i));
        assert(seq![m[0]] + t.take(i - 1) =~= m.take(i));
        assert(seq![m[0]] + (t.take(i - 1) + grammar::meta_insert(m.skip(i), k, v)) =~= m.take(i)
            + grammar::meta_insert(m.skip(i), k, v));
    }
}

/// Sets `k` to `v` in the key-ordered object `m`.
fn meta_insert(m: &mut Vec<(String, MetaValue)>, k: String, v: MetaValue)
    ensures
        meta_fields_v(final(m)@) == grammar::meta_insert(meta_fields_v(old(m)@), k@, v@),
{
    let ghost m0 = m@;
    let ghost mv = meta_fields_v(m0);
    proof {
        lemma_meta_fields_v(m0);
    }
    let kc = chars_of(k.as_str());
    let mut i: usize = 0;
    while i < m.len()
        invariant
            m@ == m0,
            m0 == old(m)@,
            mv == meta_fields_v(m0),
            mv.len() == m0.len(),
            forall|j: int| 0 <= j < m0.len() ==> #[trigger] mv[j] == (m0[j].0@, m0[j].1@),
            kc@ == k@,
            i <= m@.len(),
            forall|j: int| 0 <= j < i ==> #[trigger] mv[j].0 != k@ && !grammar::str_lt(k@, mv[j].0),
        decreases m@.len() - i,
    {
        let mc = chars_of(m[i].0.as_str());
        assert(mv[i as int].0 == m0[i as int].0@);
        if chars_eq(mc.as_slice(), kc.as_slice()) {
            proof {
                lemma_meta_insert_skip(mv, k@, v@, i as int);
                assert(mv.skip(i as int).drop_first() =~= mv.skip(i + 1));
                assert(mv.skip(i as int)[0] == mv[i as int]);
                assert(grammar::meta_insert(mv.skip(i as int), k@, v@) == seq![(k@, v@)] + mv.skip(i + 1));
            }
            m.set(i, (k, v));
            proof {
                lemma_meta_fields_v(m@);
                assert(meta_fields_v(m@) =~= mv.take(i as int) + (seq![(kc@, v@)] + mv.skip(i + 1)));
            }
            return;
        }
        if chars_lt(kc.as_slice(), mc.as_slice()) {
            proof {
                lemma_meta_insert_skip(mv, k@, v@, i as int);
                assert(mv.skip(i as int)[0] == mv[i as int]);
                assert(grammar::meta_insert(mv.skip(i as int), k@, v@) == seq![(k@, v@)] + mv.skip(i as int));
            }
            m.insert(i, (k, v));
            proof {
                lemma_meta_fields_v(m@);
                assert(meta_fields_v(m@) =~= mv.take(i as int) + (seq![(kc@, v@)] + mv.skip(i as int)));
            }
            return;
        }
        i = i + 1;
    }
    proof {
        lemma_meta_insert_skip(mv, k@, v@, i as int);
        assert(mv.skip(i as int) =~= Seq::<(Seq<char>, Meta)>::empty());
        assert(mv.take(i as int) =~= mv);
    }
    m.push((k, v));
    proof {
        assert(m@.drop_last() =~= m0);
    }
}

/// Reads a self-describing value.
fn read_meta_value(s: &Vec<char>, p: usize) -> (r: Result<(MetaValue, usize), DecodeError>)
    requires
        p <= s@.len(),
    ensures
        r matches Ok((v, q)) ==> grammar::meta_value(s@, p as int) == Some((v@, q as int)) && p < q
            <= s@.len(),
        r is Err ==> grammar::meta_value(s@, p as int) is None,
        r matches Err(e) ==> fails(s@, e, meta_value_fail(s@, p as int)),
    decreases s@.len() - p, 0nat,
{
    let q = read_ws(s, p);
    proof {
        grammar::lemma_skip_ws_idem(s@, p as int);
        assert(seq!['n', 'u', 'l', 'l'] =~= grammar::null_text());
    }
    if q < s.len() && s[q] == 'n' {
        match read_literal(s, q, &['n', 'u', 'l', 'l']) {
            Ok(r) => Ok((MetaValue::Null, r)),
            Err(e) => Err(e),
        }
    } else if q < s.len() && s[q] == 't' {
        match read_literal(s, q, &['t', 'r', 'u', 'e']) {
            Ok(r) => Ok((MetaValue::Bool(true), r)),
            Err(e) => Err(e),
        }
    } else if q < s.len() && s[q] == 'f' {
        match read_literal(s, q, &['f', 'a', 'l', 's', 'e']) {
            Ok(r) => Ok((MetaValue::Bool(false), r)),
            Err(e) => Err(e),
        }
    } else if q < s.len() && s[q] == '"' {
        match read_string(s, q) {
            Ok((t, r)) => Ok((MetaValue::String(t), r)),
            Err(e) => Err(e),
        }
    } else if q < s.len() && s[q] == '[' {
        let q2 = read_ws(s, q + 1);
        if q2 < s.len() && s[q2] == ']' {
            proof {
                assert(metas_v(Seq::<MetaValue>::empty()) =~= Seq::<Meta>::empty());
            }
            return Ok((MetaValue::Array(Vec::new()), q2 + 1));
        }
        let (items, q3) = match read_meta_items(s, q2) {
            Ok(x) => x,
            Err(e) => {
                return Err(e);
            },
        };
        match read_expect(s, q3, ']') {
            Ok(q4) => Ok((MetaValue::Array(items), q4)),
            Err(e) => Err(e),
        }
    } else if q < s.len() && s[q] == '{' {
        match read_meta_object_body(s, q + 1) {
            Ok((m, r)) => Ok((MetaValue::Object(m), r)),
            Err(e) => Err(e),
        }
    } else {
        let (t, r) = match read_number_str(s, q) {
            Ok(x) => x,
            Err(e) => {
                return Err(e);
            },
        };
        if has_frac(&t) {
            if is_float_syntax(&t) {
                Ok((MetaValue::Float(string_of(&t)), r))
            } else {
                Err(fail_quoting(s, r, "`", t.as_slice(), "` is not a number"))
            }
        } else {
            match parse_int(&t) {
                Some(i) => Ok((MetaValue::Int(i), r)),
                None => Err(fail_quoting(s, r, "`", t.as_slice(), "` is not an integer in i64 range")),
            }
        }
    }
}

/// Reads the comma-separated items of a non-empty array.
fn read_meta_items(s: &Vec<char>, p: usize) -> (r: Result<(Vec<MetaValue>, usize), DecodeError>)
    requires
        p <= s@.len(),
    ensures
        r matches Ok((vs, q)) ==> grammar::meta_items(s@, p as int) == Some((metas_v(vs@), q as int))
            && p <= q <= s@.len(),
        r is Err ==> grammar::meta_items(s@, p as int) is None,
        r matches Err(e) ==> fails(s@, e, meta_items_fail(s@, p as int)),
    decreases s@.len() - p, 1nat,
{
    let mut items: Vec<MetaValue> = Vec::new();
    let mut cur = p;
    loop
        invariant
            p <= cur <= s@.len(),
            grammar::meta_items(s@, p as int) == match grammar::meta_items(s@, cur as int) {
                Some((vs, r)) => Some((metas_v(items@) + vs, r)),
                None => None,
            },
            meta_items_fail(s@, p as int) == meta_items_fail(s@, cur as int),
        decreases s@.len() - cur,
    {
        let (v, q) = match read_meta_value(s, cur) {
            Ok(x) => x,
            Err(e) => {
                return Err(e);
            },
        };
        let ghost before = items@;
        items.push(v);
        proof {
            assert(items@.drop_last() =~= before);
        }
        let q1 = read_ws(s, q);
        if q1 < s.len() && s[q1] == ',' {
            proof {
                match grammar::meta_items(s@, q1 + 1) {
                    Some((vs, r)) => {
                        assert(metas_v(before) + (seq![v@] + vs) =~= metas_v(items@) + vs);
                    },
                    None => {},
                }
            }
            cur = q1 + 1;
        } else {
            proof {
                assert(metas_v(before) + seq![v@] =~= metas_v(items@));
            }
            return Ok((items, q1));
        }
    }
}

/// Reads the members of an object, each inserted in turn.
fn read_meta_members(s: &Vec<char>, p: usize) -> (r: Result<
    (Vec<(String, MetaValue)>, usize),
    DecodeError,
>)
    requires
        p <= s@.len(),
    ensures
        r matches Ok((m, q)) ==> grammar::meta_members(s@, p as int, Seq::empty()) == Some(
            (meta_fields_v(m@), q as int),
        ) && p <= q <= s@.len(),
        r is Err ==> grammar::meta_members(s@, p as int, Seq::empty()) is None,
        r matches Err(e) ==> fails(s@, e, meta_members_fail(s@, p as int, Seq::empty())),
    decreases s@.len() - p, 1nat,
{
    let mut acc: Vec<(String, MetaValue)> = Vec::new();
    let mut cur = p;
    proof {
        assert(meta_fields_v(acc@) =~= Seq::<(Seq<char>, Meta)>::empty());
    }
    loop
        invariant
            p <= cur <= s@.len(),
            grammar::meta_members(s@, p as int, Seq::empty()) == grammar::meta_members(
                s@,
                cur as int,
                meta_fields_v(acc@),
            ),
            meta_members_fail(s@, p as int, Seq::empty()) == meta_members_fail(
                s@,
                cur as int,
                meta_fields_v(acc@),
            ),
        decreases s@.len() - cur,
    {
        let (k, q1) = match read_string(s, read_ws(s, cur)) {
            Ok(x) => x,
            Err(e) => {
                return Err(e);
            },
        };
        let q2 = match read_expect(s, q1, ':') {
            Ok(x) => x,
            Err(e) => {
                return Err(e);
            },
        };
        let (v, q3) = match read_meta_value(s, q2) {
            Ok(x) => x,
            Err(e) => {
                return Err(e);
            },
        };
        meta_insert(&mut acc, k, v);
        let q4 = read_ws(s, q3);
        if q4 < s.len() && s[q4] == ',' {
            cur = q4 + 1;
        } else {
            return Ok((acc, q4));
        }
    }
}

/// Reads an object's body, the `{` already consumed.
fn read_meta_object_body(s: &Vec<char>, p: usize) -> (r: Result<
    (Vec<(String, MetaValue)>, usize),
    DecodeError,
>)
    requires
        p <= s@.len(),
    ensures
        r matches Ok((m, q)) ==> grammar::meta_object_body(s@, p as int) == Some(
            (meta_fields_v(m@), q as int),
        ) && p < q <= s@.len(),
        r is Err ==> grammar::meta_object_body(s@, p as int) is None,
        r matches Err(e) ==> fails(s@, e, meta_object_body_fail(s@, p as int)),
    decreases s@.len() - p, 2nat,
{
    let q = read_ws(s, p);
    if q < s.len() && s[q] == '}' {
        proof {
            assert(meta_fields_v(Seq::<(String, MetaValue)>::empty()) =~= Seq::<(Seq<char>, Meta)>::empty());
        }
        return Ok((Vec::new(), q + 1));
    }
    let (m, r) = match read_meta_members(s, q) {
        Ok(x) => x,
        Err(e) => {
            return Err(e);
        },
    };
    match read_expect(s, r, '}') {
        Ok(r2) => Ok((m, r2)),
        Err(e) => Err(e),
    }
}

// ── records ─────────────────────────────────────────────────────

/// The `schema_version` number's text and where it ends, when `s` at `p`
/// opens an envelope: `{`, the `schema_version` key, and a number token.
pub open spec fn envelope_version(s: Seq<char>, p: int) -> Option<(Seq<char>, int)> {
    match grammar::expect(s, p, '{') {
        None => None,
        Some(q1) => match grammar::key(
            s,
            q1,
            seq!['s', 'c', 'h', 'e', 'm', 'a', '_', 'v', 'e', 'r', 's', 'i', 'o', 'n'],
        ) {
            None => None,
            Some(q2) => grammar::number_str(s, grammar::skip_ws(s, q2)),
        },
    }
}

/// The message for a `schema_version` token `t` other than `1`.
pub open spec fn version_message(t: Seq<char>) -> Seq<char> {
    match grammar::parse_int(t) {
        Some(v) => "unsupported schema_version "@ + int_text(v as int) + ", expected 1"@,
        None => "`"@ + t + "` is not an integer in i64 range"@,
    }
}

/// Whether `e` is the error for an envelope of `s` at `p` whose
/// `schema_version` is not `1`: at the byte after the number, naming it.
pub open spec fn version_error(s: Seq<char>, p: int, e: DecodeError) -> bool {
    envelope_version(s, p) matches Some((t, q)) && e.offset == byte_offset_of(s, q) && e.message@
        == version_message(t)
}

/// Whether the envelope of `s` at `p` has a number other than `1` for its
/// `schema_version`.
pub open spec fn wrong_version(s: Seq<char>, p: int) -> bool {
    envelope_version(s, p) matches Some((t, _)) && grammar::parse_int(t) != Some(1i64)
}

/// Reads the envelope prefix through the tool name.
fn read_envelope_tool(s: &Vec<char>, p: usize) -> (r: Result<(String, usize), DecodeError>)
    requires
        p <= s@.len(),
    ensures
        r matches Ok((t, q)) ==> grammar::envelope_tool(s@, p as int) == Some((t@, q as int)) && q
            <= s@.len(),
        r is Err ==> grammar::envelope_tool(s@, p as int) is None,
        wrong_version(s@, p as int) ==> (r matches Err(e) && version_error(s@, p as int, e)),
        r matches Err(e) ==> fails(s@, e, envelope_fail(s@, p as int)),
{
    let q1 = match read_expect(s, p, '{') {
        Ok(x) => x,
        Err(e) => {
            return Err(e);
        },
    };
    let q2 = match read_key(
        s,
        q1,
        &['s', 'c', 'h', 'e', 'm', 'a', '_', 'v', 'e', 'r', 's', 'i', 'o', 'n'],
    ) {
        Ok(x) => x,
        Err(e) => {
            return Err(e);
        },
    };
    let (t, q3) = match read_number_str(s, read_ws(s, q2)) {
        Ok(x) => x,
        Err(e) => {
            return Err(e);
        },
    };
    match parse_int(&t) {
        Some(version) => {
            if version != 1 {
                let mut message = "unsupported schema_version ".to_owned();
                write_int(&mut message, version);
                let tail = chars_of(", expected 1");
                push_chars(&mut message, tail.as_slice());
                return Err(DecodeError { offset: byte_offset(s, q3), message });
            }
        },
        None => {
            return Err(fail_quoting(s, q3, "`", t.as_slice(), "` is not an integer in i64 range"));
        },
    }
    let q4 = match read_expect(s, q3, ',') {
        Ok(x) => x,
        Err(e) => {
            return Err(e);
        },
    };
    let q5 = match read_key(s, q4, &['t', 'o', 'o', 'l']) {
        Ok(x) => x,
        Err(e) => {
            return Err(e);
        },
    };
    read_string(s, q5)
}

/// Reads the tool name from a record line's envelope prefix without
/// decoding the rest, enough to select the signature a full
/// [`decode_record`] needs.
pub fn peek_tool(input: &str) -> (r: Result<String, DecodeError>)
    ensures
        r matches Ok(t) ==> grammar::envelope_tool(input@, 0) matches Some((t2, _)) && t2 == t@,
        r is Err ==> grammar::envelope_tool(input@, 0) is None,
        wrong_version(input@, 0) ==> (r matches Err(e) && version_error(input@, 0, e)),
        r matches Err(e) ==> fails(input@, e, envelope_fail(input@, 0)),
{
    let s = chars_of(input);
    match read_envelope_tool(&s, 0) {
        Ok((t, _)) => Ok(t),
        Err(e) => Err(e),
    }
}

/// The first of the error types that the value at `p` decodes as.
fn read_first_err(s: &Vec<char>, p: usize, errs: &Vec<Ty>, adts: &AdtTable) -> (r: Result<
    (WireValue, usize),
    DecodeError,
>)
    requires
        p <= s@.len(),
    ensures
        r matches Ok((v, q)) ==> grammar::first_err(s@, p as int, tys_v(errs@), 0, adts@) == Some(
            (v@, q as int),
        ) && q <= s@.len(),
        r is Err ==> grammar::first_err(s@, p as int, tys_v(errs@), 0, adts@) is None,
        r matches Err(e) ==> fails(
            s@,
            e,
            (p as int, "err value matches none of the tool's declared error types"@),
        ),
{
    proof {
        lemma_tys_v(errs@);
    }
    let mut i: usize = 0;
    while i < errs.len()
        invariant
            i <= errs@.len(),
            p <= s@.len(),
            tys_v(errs@).len() == errs@.len(),
            forall|k: int| 0 <= k < errs@.len() ==> #[trigger] tys_v(errs@)[k] == errs@[k]@,
            grammar::first_err(s@, p as int, tys_v(errs@), 0, adts@) == grammar::first_err(
                s@,
                p as int,
                tys_v(errs@),
                i as int,
                adts@,
            ),
        decreases errs@.len() - i,
    {
        assert(errs@[i as int] == errs[i as int]);
        match read_value(s, p, &errs[i], adts) {
            Ok(x) => {
                return Ok(x);
            },
            Err(_) => {},
        }
        i = i + 1;
    }
    Err(fail(s, p, "err value matches none of the tool's declared error types"))
}

/// Reads the tagged `result` field.
fn read_result(s: &Vec<char>, p: usize, sig: &ToolWireSig, adts: &AdtTable) -> (r: Result<
    (ToolResult, usize),
    DecodeError,
>)
    requires
        p <= s@.len(),
    ensures
        r matches Ok((v, q)) ==> grammar::result(
            s@,
            p as int,
            sig.result@,
            tys_v(sig.errors@),
            adts@,
        ) == Some((v@, q as int)) && q <= s@.len(),
        r is Err ==> grammar::result(s@, p as int, sig.result@, tys_v(sig.errors@), adts@) is None,
        r matches Err(e) ==> fails(s@, e, result_fail(s@, p as int, sig.result@, tys_v(sig.errors@), adts@)),
{
    let q1 = match read_expect(s, p, '{') {
        Ok(x) => x,
        Err(e) => {
            return Err(e);
        },
    };
    let (tag, q2) = match read_string(s, read_ws(s, q1)) {
        Ok(x) => x,
        Err(e) => {
            return Err(e);
        },
    };
    let q3 = match read_expect(s, q2, ':') {
        Ok(x) => x,
        Err(e) => {
            return Err(e);
        },
    };
    let tc = chars_of(tag.as_str());
    let (res, q4) = if chars_eq(tc.as_slice(), &['o', 'k']) {
        match read_value(s, q3, &sig.result, adts) {
            Ok((v, q)) => (ToolResult::Success(v), q),
            Err(e) => {
                return Err(e);
            },
        }
    } else if chars_eq(tc.as_slice(), &['e', 'r', 'r']) {
        match read_first_err(s, q3, &sig.errors, adts) {
            Ok((v, q)) => (ToolResult::Failure(v), q),
            Err(e) => {
                return Err(e);
            },
        }
    } else {
        return Err(fail_quoting(s, q3, "expected result tag `ok` or `err`, found `", tc.as_slice(), "`"));
    };
    match read_expect(s, q4, '}') {
        Ok(q5) => Ok((res, q5)),
        Err(e) => Err(e),
    }
}

/// Reads the optional `,"meta":{…}` member.
fn read_meta_member(s: &Vec<char>, p: usize) -> (r: Result<
    (Option<Vec<(String, MetaValue)>>, usize),
    DecodeError,
>)
    requires
        p <= s@.len(),
    ensures
        r matches Ok((m, q)) ==> grammar::meta_member(s@, p as int) == Some(
            (
                match m {
                    Some(m) => Some(meta_fields_v(m@)),
                    None => None,
                },
                q as int,
            ),
        ) && q <= s@.len(),
        r is Err ==> grammar::meta_member(s@, p as int) is None,
        r matches Err(e) ==> fails(s@, e, meta_member_fail(s@, p as int)),
{
    if p < s.len() && s[p] == ',' {
        let q = match read_key(s, p + 1, &['m', 'e', 't', 'a']) {
            Ok(x) => x,
            Err(e) => {
                return Err(e);
            },
        };
        let q1 = match read_expect(s, q, '{') {
            Ok(x) => x,
            Err(e) => {
                return Err(e);
            },
        };
        match read_meta_object_body(s, q1) {
            Ok((m, r)) => Ok((Some(m), r)),
            Err(e) => Err(e),
        }
    } else {
        Ok((None, p))
    }
}

/// Where and why decoding a whole audit-log line fails: at the first
/// step of the record that does not read, or at trailing input after it.
pub open spec fn record_fail(s: Seq<char>, args_ty: TyV, ok_ty: TyV, errs: Seq<TyV>, adts: grammar::AdtMap) -> (
    int,
    Seq<char>,
) {
    match grammar::envelope_tool(s, 0) {
        None => envelope_fail(s, 0),
        Some((_, q0)) => match grammar::expect(s, q0, ',') {
            None => expect_fail(s, q0, ','),
            Some(q1) => match grammar::key(s, q1, seq!['a', 'r', 'g', 's']) {
                None => key_fail(s, q1, seq!['a', 'r', 'g', 's']),
                Some(q2) => match grammar::value(s, q2, args_ty, adts) {
                    None => value_fail(s, q2, args_ty, adts),
                    Some((_, q3)) => match grammar::expect(s, q3, ',') {
                        None => expect_fail(s, q3, ','),
                        Some(q4) => match grammar::key(s, q4, seq!['r', 'e', 's', 'u', 'l', 't']) {
                            None => key_fail(s, q4, seq!['r', 'e', 's', 'u', 'l', 't']),
                            Some(q5) => match grammar::result(s, q5, ok_ty, errs, adts) {
                                None => result_fail(s, q5, ok_ty, errs, adts),
                                Some((_, q6)) => record_tail_fail(s, q6),
                            },
                        },
                    },
                },
            },
        },
    }
}

/// Where and why the record fails after its `result`: in the timestamp,
/// the caller, the `meta` member, the closing brace, or at trailing input.
pub open spec fn record_tail_fail(s: Seq<char>, q6: int) -> (int, Seq<char>) {
    match grammar::expect(s, q6, ',') {
        None => expect_fail(s, q6, ','),
        Some(q7) => match grammar::key(s, q7, seq!['t', 'i', 'm', 'e', 's', 't', 'a', 'm', 'p']) {
            None => key_fail(s, q7, seq!['t', 'i', 'm', 'e', 's', 't', 'a', 'm', 'p']),
            Some(q8) => match grammar::string(s, q8) {
                None => string_fail(s, q8),
                Some((ts, q9)) => if !crate::wire::encode::valid_timestamp(ts) {
                    (q9, "timestamp `"@ + ts + "` is not of the form 2026-05-22T12:00:00.000Z"@)
                } else {
                    match grammar::expect(s, q9, ',') {
                        None => expect_fail(s, q9, ','),
                        Some(q10) => match grammar::key(s, q10, seq!['c', 'a', 'l', 'l', 'e', 'r']) {
                            None => key_fail(s, q10, seq!['c', 'a', 'l', 'l', 'e', 'r']),
                            Some(q11) => match grammar::string(s, q11) {
                                None => string_fail(s, q11),
                                Some((_, q12)) => match grammar::meta_member(s, q12) {
                                    None => meta_member_fail(s, q12),
                                    Some((_, q13)) => match grammar::expect(s, q13, '}') {
                                        None => expect_fail(s, q13, '}'),
                                        Some(q14) => (grammar::skip_ws(s, q14), "trailing input after the record"@),
                                    },
                                },
                            },
                        },
                    }
                },
            },
        },
    }
}

/// Decodes one audit-log line against a tool's signature. The envelope
/// fields must appear in the canonical fixed order, and `schema_version`
/// must be the one this format writes.
pub fn decode_record(input: &str, sig: &ToolWireSig, adts: &AdtTable) -> (r: Result<
    InvocationRecord,
    DecodeError,
>)
    ensures
        r matches Ok(rec) ==> grammar::decode_record(
            input@,
            sig.args@,
            sig.result@,
            tys_v(sig.errors@),
            adts@,
        ) == Some(rec@),
        r is Err ==> grammar::decode_record(
            input@,
            sig.args@,
            sig.result@,
            tys_v(sig.errors@),
            adts@,
        ) is None,
        wrong_version(input@, 0) ==> (r matches Err(e) && version_error(input@, 0, e)),
        r matches Err(e) ==> fails(
            input@,
            e,
            record_fail(input@, sig.args@, sig.result@, tys_v(sig.errors@), adts@),
        ),
{
    let s = chars_of(input);
    let (tool, q0) = match read_envelope_tool(&s, 0) {
        Ok(x) => x,
        Err(e) => {
            return Err(e);
        },
    };
    let q1 = match read_expect(&s, q0, ',') {
        Ok(x) => x,
        Err(e) => {
            return Err(e);
        },
    };
    let q2 = match read_key(&s, q1, &['a', 'r', 'g', 's']) {
        Ok(x) => x,
        Err(e) => {
            return Err(e);
        },
    };
    let (args, q3) = match read_value(&s, q2, &sig.args, adts) {
        Ok(x) => x,
        Err(e) => {
            return Err(e);
        },
    };
    let q4 = match read_expect(&s, q3, ',') {
        Ok(x) => x,
        Err(e) => {
            return Err(e);
        },
    };
    let q5 = match read_key(&s, q4, &['r', 'e', 's', 'u', 'l', 't']) {
        Ok(x) => x,
        Err(e) => {
            return Err(e);
        },
    };
    let (result, q6) = match read_result(&s, q5, sig, adts) {
        Ok(x) => x,
        Err(e) => {
            return Err(e);
        },
    };
    let q7 = match read_expect(&s, q6, ',') {
        Ok(x) => x,
        Err(e) => {
            return Err(e);
        },
    };
    let q8 = match read_key(&s, q7, &['t', 'i', 'm', 'e', 's', 't', 'a', 'm', 'p']) {
        Ok(x) => x,
        Err(e) => {
            return Err(e);
        },
    };
    let (timestamp, q9) = match read_string(&s, q8) {
        Ok(x) => x,
        Err(e) => {
            return Err(e);
        },
    };
    if !is_valid_timestamp(timestamp.as_str()) {
        let tc = chars_of(timestamp.as_str());
        return Err(
            fail_quoting(
                &s,
                q9,
                "timestamp `",
                tc.as_slice(),
                "` is not of the form 2026-05-22T12:00:00.000Z",
            ),
        );
    }
    let q10 = match read_expect(&s, q9, ',') {
        Ok(x) => x,
        Err(e) => {
            return Err(e);
        },
    };
    let q11 = match read_key(&s, q10, &['c', 'a', 'l', 'l', 'e', 'r']) {
        Ok(x) => x,
        Err(e) => {
            return Err(e);
        },
    };
    let (caller, q12) = match read_string(&s, q11) {
        Ok(x) => x,
        Err(e) => {
            return Err(e);
        },
    };
    let (meta, q13) = match read_meta_member(&s, q12) {
        Ok(x) => x,
        Err(e) => {
            return Err(e);
        },
    };
    let q14 = match read_expect(&s, q13, '}') {
        Ok(x) => x,
        Err(e) => {
            return Err(e);
        },
    };
    let q15 = read_ws(&s, q14);
    if q15 != s.len() {
        return Err(fail(&s, q15, "trailing input after the record"));
    }
    Ok(InvocationRecord { tool, args, result, timestamp, caller, meta })
}

} // verus!
