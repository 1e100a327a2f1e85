//! The wire grammar as functions on text: for each decoding step, what it
//! reads from a position of the input and where it leaves off. Positions
//! count characters; a step that fails gives `None`.
use vstd::prelude::*;

use crate::wire::encode::{digit_val, is_digit};
use crate::wire::encode::valid_timestamp;
use crate::wire::value::{Meta, RecordV, ResultV, TyV, Val};

verus! {

/// The constructor shapes of the ADTs: each type name maps to its
/// constructors with their field types, in declaration order.
pub type AdtMap = Map<Seq<char>, Seq<(Seq<char>, Seq<TyV>)>>;

// ── lexical steps ───────────────────────────────────────────────

/// Whether `c` is JSON whitespace.
pub open spec fn is_ws(c: char) -> bool {
    c == ' ' || c == '\t' || c == '\n' || c == '\r'
}

/// The length of the whitespace run at `p`.
pub open spec fn ws_run(s: Seq<char>, p: int) -> nat
    decreases s.len() - p,
{
    if 0 <= p < s.len() && is_ws(s[p]) {
        1 + ws_run(s, p + 1)
    } else {
        0
    }
}

/// The position after the whitespace at `p`.
pub open spec fn skip_ws(s: Seq<char>, p: int) -> int {
    p + ws_run(s, p)
}

/// Consumes `c` after any whitespace.
pub open spec fn expect(s: Seq<char>, p: int, c: char) -> Option<int> {
    let q = skip_ws(s, p);
    if 0 <= q < s.len() && s[q] == c {
        Some(q + 1)
    } else {
        None
    }
}

/// Consumes the text `t` exactly, with no whitespace before it.
pub open spec fn literal(s: Seq<char>, p: int, t: Seq<char>) -> Option<int> {
    if 0 <= p && p + t.len() <= s.len() && s.subrange(p, p + t.len()) == t {
        Some(p + t.len())
    } else {
        None
    }
}

/// The text `null`.
pub open spec fn null_text() -> Seq<char> {
    seq!['n', 'u', 'l', 'l']
}

// ── strings ─────────────────────────────────────────────────────

/// The value of a hexadecimal digit.
pub open spec fn hex_val(c: char) -> Option<nat> {
    if '0' <= c <= '9' {
        Some(((c as u32) - ('0' as u32)) as nat)
    } else if 'a' <= c <= 'f' {
        Some(((c as u32) - ('a' as u32) + 10) as nat)
    } else if 'A' <= c <= 'F' {
        Some(((c as u32) - ('A' as u32) + 10) as nat)
    } else {
        None
    }
}

/// The value of a run of hexadecimal digits.
pub open spec fn hex_num(d: Seq<char>) -> Option<nat>
    decreases d.len(),
{
    if d.len() == 0 {
        Some(0)
    } else {
        match (hex_num(d.drop_last()), hex_val(d.last())) {
            (Some(a), Some(b)) => Some(a * 16 + b),
            _ => None,
        }
    }
}

/// Reads the four characters of a `\uXXXX` escape as a hexadecimal
/// number; a leading `+` is accepted in place of the first digit.
pub open spec fn hex4(s: Seq<char>, p: int) -> Option<(nat, int)> {
    if 0 <= p && p + 4 <= s.len() {
        let d = s.subrange(p, p + 4);
        let n = if d[0] == '+' {
            hex_num(d.drop_first())
        } else {
            hex_num(d)
        };
        match n {
            Some(v) => Some((v, p + 4)),
            None => None,
        }
    } else {
        None
    }
}

/// Reads the digits of a `\u` escape (the `\u` already consumed), pairing
/// a high surrogate with the low surrogate escape that must follow it.
pub open spec fn unicode_escape(s: Seq<char>, p: int) -> Option<(char, int)> {
    match hex4(s, p) {
        None => None,
        Some((high, q)) => if 0xD800 <= high < 0xDC00 {
            match literal(s, q, seq!['\\', 'u']) {
                None => None,
                Some(q2) => match hex4(s, q2) {
                    None => None,
                    Some((low, q3)) => if 0xDC00 <= low < 0xE000 {
                        Some(((0x10000 + (high - 0xD800) * 1024 + (low - 0xDC00)) as char, q3))
                    } else {
                        None
                    },
                },
            }
        } else if 0xDC00 <= high < 0xE000 {
            None
        } else {
            Some((high as char, q))
        },
    }
}

/// Reads one escape, the leading `\` already consumed.
pub open spec fn escape(s: Seq<char>, p: int) -> Option<(char, int)> {
    if 0 <= p < s.len() {
        let b = s[p];
        if b == '"' {
            Some(('"', p + 1))
        } else if b == '\\' {
            Some(('\\', p + 1))
        } else if b == '/' {
            Some(('/', p + 1))
        } else if b == 'b' {
            Some(('\u{8}', p + 1))
        } else if b == 'f' {
            Some(('\u{c}', p + 1))
        } else if b == 'n' {
            Some(('\n', p + 1))
        } else if b == 'r' {
            Some(('\r', p + 1))
        } else if b == 't' {
            Some(('\t', p + 1))
        } else if b == 'u' {
            unicode_escape(s, p + 1)
        } else {
            None
        }
    } else {
        None
    }
}

/// Reads the body of a string literal through its closing quote.
pub open spec fn str_body(s: Seq<char>, p: int) -> Option<(Seq<char>, int)>
    decreases s.len() - p,
{
    if 0 <= p < s.len() {
        let c = s[p];
        if c == '"' {
            Some((Seq::empty(), p + 1))
        } else if c == '\\' {
            match escape(s, p + 1) {
                None => None,
                Some((e, q)) => if q > p {
                    match str_body(s, q) {
                        Some((rest, r)) => Some((seq![e] + rest, r)),
                        None => None,
                    }
                } else {
                    None
                },
            }
        } else if (c as u32) < 0x20 {
            None
        } else {
            match str_body(s, p + 1) {
                Some((rest, r)) => Some((seq![c] + rest, r)),
                None => None,
            }
        }
    } else {
        None
    }
}

/// Reads a string literal after any whitespace.
pub open spec fn string(s: Seq<char>, p: int) -> Option<(Seq<char>, int)> {
    match expect(s, p, '"') {
        Some(q) => str_body(s, q),
        None => None,
    }
}

/// Reads the object key `name` and its `:`.
pub open spec fn key(s: Seq<char>, p: int, name: Seq<char>) -> Option<int> {
    match string(s, p) {
        Some((k, q)) => if k == name {
            expect(s, q, ':')
        } else {
            None
        },
        None => None,
    }
}

// ── numbers ─────────────────────────────────────────────────────

/// Whether `c` may occur in a number's text.
pub open spec fn is_num_char(c: char) -> bool {
    is_digit(c) || c == '.' || c == 'e' || c == 'E' || c == '+' || c == '-'
}

/// The length of the run of number characters at `p`.
pub open spec fn num_run(s: Seq<char>, p: int) -> nat
    decreases s.len() - p,
{
    if 0 <= p < s.len() && is_num_char(s[p]) {
        1 + num_run(s, p + 1)
    } else {
        0
    }
}

/// Reads the text of a number: an optional `-`, then the run of number
/// characters. It must not be empty.
pub open spec fn number_str(s: Seq<char>, p: int) -> Option<(Seq<char>, int)> {
    let p1 = if 0 <= p < s.len() && s[p] == '-' {
        p + 1
    } else {
        p
    };
    let q = p1 + num_run(s, p1);
    if q == p || p < 0 {
        None
    } else {
        Some((s.subrange(p, q), q))
    }
}

/// Whether every character of `d` is a decimal digit.
pub open spec fn all_digits(d: Seq<char>) -> bool {
    forall|i: int| 0 <= i < d.len() ==> is_digit(#[trigger] d[i])
}

/// The value of a run of decimal digits.
pub open spec fn digits_val(d: Seq<char>) -> nat
    decreases d.len(),
{
    if d.len() == 0 {
        0
    } else {
        digits_val(d.drop_last()) * 10 + digit_val(d.last()) as nat
    }
}

/// An integer's text parsed as `i64`: an optional sign, then at least one
/// digit, within range.
pub open spec fn parse_int(t: Seq<char>) -> Option<i64> {
    let signed = t.len() > 0 && (t[0] == '-' || t[0] == '+');
    let d = if signed {
        t.drop_first()
    } else {
        t
    };
    let v: int = if t.len() > 0 && t[0] == '-' {
        -(digits_val(d) as int)
    } else {
        digits_val(d) as int
    };
    if d.len() > 0 && all_digits(d) && i64::MIN <= v <= i64::MAX {
        Some(v as i64)
    } else {
        None
    }
}

/// The length of the run of digits at `i`.
pub open spec fn digit_run(t: Seq<char>, i: int) -> nat
    decreases t.len() - i,
{
    if 0 <= i < t.len() && is_digit(t[i]) {
        1 + digit_run(t, i + 1)
    } else {
        0
    }
}

/// Whether `t` is a decimal number: an optional sign, digits with an
/// optional fraction (at least one digit in all), and an optional
/// exponent `e` or `E` with an optional sign and at least one digit.
pub open spec fn float_syntax(t: Seq<char>) -> bool {
    let a: int = if t.len() > 0 && (t[0] == '+' || t[0] == '-') {
        1
    } else {
        0
    };
    let d1 = digit_run(t, a);
    let i = a + d1;
    let dot = i < t.len() && t[i] == '.';
    let d2: nat = if dot {
        digit_run(t, i + 1)
    } else {
        0
    };
    let i2: int = if dot {
        i + 1 + d2
    } else {
        i
    };
    &&& d1 > 0 || d2 > 0
    &&& i2 == t.len() || {
        &&& t[i2] == 'e' || t[i2] == 'E'
        &&& {
            let j: int = if i2 + 1 < t.len() && (t[i2 + 1] == '+' || t[i2 + 1] == '-') {
                i2 + 2
            } else {
                i2 + 1
            };
            let d3 = digit_run(t, j);
            d3 > 0 && j + d3 == t.len()
        }
    }
}

/// Whether a number's text has fractional or exponent syntax.
pub open spec fn has_frac(t: Seq<char>) -> bool {
    t.contains('.') || t.contains('e') || t.contains('E')
}

// ── types ───────────────────────────────────────────────────────

/// A type with its leading quantifiers removed.
pub open spec fn strip(t: TyV) -> TyV
    decreases t,
{
    match t {
        TyV::Forall(_, b) => strip(*b),
        _ => t,
    }
}

/// `t` with every variable `i` below `args.len()` replaced by `args[i]`.
pub open spec fn subst(t: TyV, args: Seq<TyV>) -> TyV
    decreases t, 1nat,
{
    match t {
        TyV::Var(v) => if (v as int) < args.len() {
            args[v as int]
        } else {
            t
        },
        TyV::Con(n, ts) => TyV::Con(n, subst_all(ts, args)),
        TyV::Fn(ps, r, effs) => TyV::Fn(
            subst_all(ps, args),
            Box::new(subst(*r, args)),
            subst_effs(effs, args),
        ),
        TyV::Tuple(ts) => TyV::Tuple(subst_all(ts, args)),
        TyV::Record(fs) => TyV::Record(subst_fields(fs, args)),
        TyV::Forall(vs, b) => TyV::Forall(vs, Box::new(subst(*b, args))),
    }
}

/// [`subst`] on each type of `ts`.
pub open spec fn subst_all(ts: Seq<TyV>, args: Seq<TyV>) -> Seq<TyV>
    decreases ts, 0nat,
{
    if ts.len() == 0 {
        Seq::empty()
    } else {
        subst_all(ts.drop_last(), args).push(subst(ts.last(), args))
    }
}

/// [`subst`] on each field type of `fs`.
pub open spec fn subst_fields(fs: Seq<(Seq<char>, TyV)>, args: Seq<TyV>) -> Seq<(Seq<char>, TyV)>
    decreases fs, 0nat,
{
    if fs.len() == 0 {
        Seq::empty()
    } else {
        subst_fields(fs.drop_last(), args).push((fs.last().0, subst(fs.last().1, args)))
    }
}

/// [`subst`] on each effect argument of `effs`.
pub open spec fn subst_effs(effs: Seq<(Seq<char>, Seq<TyV>)>, args: Seq<TyV>) -> Seq<
    (Seq<char>, Seq<TyV>),
>
    decreases effs, 0nat,
{
    if effs.len() == 0 {
        Seq::empty()
    } else {
        subst_effs(effs.drop_last(), args).push((effs.last().0, subst_all(effs.last().1, args)))
    }
}

/// The index of the first constructor named `name`, from `i` on.
pub open spec fn find_ctor(ctors: Seq<(Seq<char>, Seq<TyV>)>, name: Seq<char>, i: int) -> Option<
    int,
>
    decreases ctors.len() - i,
{
    if 0 <= i < ctors.len() {
        if ctors[i].0 == name {
            Some(i)
        } else {
            find_ctor(ctors, name, i + 1)
        }
    } else {
        None
    }
}

// ── values ──────────────────────────────────────────────────────

/// Reads a value of type `ty`.
pub open spec fn value(s: Seq<char>, p: int, ty: TyV, adts: AdtMap) -> Option<(Val, int)>
    decreases s.len() - p, 0nat,
{
    let q = skip_ws(s, p);
    match strip(ty) {
        TyV::Tuple(es) => if es.len() == 0 {
            match literal(s, q, null_text()) {
                Some(r) => Some((Val::Unit, r)),
                None => None,
            }
        } else {
            match expect(s, q, '[') {
                None => None,
                Some(q1) => match fixed_items(s, q1, es, 0, adts) {
                    None => None,
                    Some((vs, q2)) => match expect(s, q2, ']') {
                        Some(q3) => Some((Val::Tuple(vs), q3)),
                        None => None,
                    },
                },
            }
        },
        TyV::Record(fs) => match expect(s, q, '{') {
            None => None,
            Some(q1) => match rec_fields(s, q1, fs, 0, adts) {
                None => None,
                Some((vs, q2)) => match expect(s, q2, '}') {
                    Some(q3) => Some((Val::Record(vs), q3)),
                    None => None,
                },
            },
        },
        TyV::Con(name, args) => if name == seq!['I', 'n', 't'] && args.len() == 0 {
            match number_str(s, q) {
                None => None,
                Some((t, r)) => if has_frac(t) {
                    None
                } else {
                    match parse_int(t) {
                        Some(i) => Some((Val::Int(i), r)),
                        None => None,
                    }
                },
            }
        } else if name == seq!['F', 'l', 'o', 'a', 't'] && args.len() == 0 {
            match number_str(s, q) {
                None => None,
                Some((t, r)) => if float_syntax(t) {
                    Some((Val::Float(t), r))
                } else {
                    None
                },
            }
        } else if name == seq!['S', 't', 'r', 'i', 'n', 'g'] && args.len() == 0 {
            match string(s, q) {
                Some((t, r)) => Some((Val::Str(t), r)),
                None => None,
            }
        } else if name == seq!['L', 'i', 's', 't'] && args.len() == 1 {
            match expect(s, q, '[') {
                None => None,
                Some(q1) => {
                    let q2 = skip_ws(s, q1);
                    proof {
                        lemma_skip_ws(s, q1);
                    }
                    if q2 < s.len() && s[q2] == ']' {
                        Some((Val::List(Seq::empty()), q2 + 1))
                    } else {
                        match list_items(s, q2, args[0], adts) {
                            None => None,
                            Some((vs, q3)) => match expect(s, q3, ']') {
                                Some(q4) => Some((Val::List(vs), q4)),
                                None => None,
                            },
                        }
                    }
                },
            }
        } else if adts.contains_key(name) {
            match ctor_head(s, q, adts[name]) {
                None => None,
                Some((idx, q1)) => {
                    proof {
                        lemma_ctor_head(s, q, adts[name]);
                    }
                    let c = adts[name][idx];
                    match fixed_items(s, q1, subst_all(c.1, args), 0, adts) {
                        None => None,
                        Some((vs, q2)) => match expect(s, q2, ']') {
                            None => None,
                            Some(q3) => match expect(s, q3, '}') {
                                Some(q4) => Some((Val::Ctor(c.0, vs), q4)),
                                None => None,
                            },
                        },
                    }
                },
            }
        } else {
            None
        },
        _ => None,
    }
}

/// Reads `{"ctor":"Name","args":[` for one of `ctors`: the index of the
/// first constructor of that name and the position inside the array.
pub open spec fn ctor_head(s: Seq<char>, p: int, ctors: Seq<(Seq<char>, Seq<TyV>)>) -> Option<
    (int, int),
> {
    match expect(s, p, '{') {
        None => None,
        Some(q1) => match key(s, skip_ws(s, q1), seq!['c', 't', 'o', 'r']) {
            None => None,
            Some(q2) => match string(s, q2) {
                None => None,
                Some((name, q3)) => match find_ctor(ctors, name, 0) {
                    None => None,
                    Some(idx) => match expect(s, q3, ',') {
                        None => None,
                        Some(q4) => match key(s, skip_ws(s, q4), seq!['a', 'r', 'g', 's']) {
                            None => None,
                            Some(q5) => match expect(s, q5, '[') {
                                Some(q6) => Some((idx, q6)),
                                None => None,
                            },
                        },
                    },
                },
            },
        },
    }
}

/// Reads the elements `i..` of a fixed-arity array of types `tys`, each
/// but the first after a `,`.
pub open spec fn fixed_items(s: Seq<char>, p: int, tys: Seq<TyV>, i: int, adts: AdtMap) -> Option<
    (Seq<Val>, int),
>
    decreases s.len() - p, 1nat,
{
    if i < 0 || i >= tys.len() {
        Some((Seq::empty(), p))
    } else {
        let p1 = if i > 0 {
            expect(s, p, ',')
        } else {
            Some(p)
        };
        match p1 {
            None => None,
            Some(p1) => match value(s, p1, tys[i], adts) {
                None => None,
                Some((v, q)) => if q <= p || q > s.len() {
                    None
                } else {
                    match fixed_items(s, q, tys, i + 1, adts) {
                        Some((vs, r)) => Some((seq![v] + vs, r)),
                        None => None,
                    }
                },
            },
        }
    }
}

/// Reads the fields `i..` of a record of field types `fs`, in order, each
/// but the first after a `,`.
pub open spec fn rec_fields(
    s: Seq<char>,
    p: int,
    fs: Seq<(Seq<char>, TyV)>,
    i: int,
    adts: AdtMap,
) -> Option<(Seq<(Seq<char>, Val)>, int)>
    decreases s.len() - p, 1nat,
{
    if i < 0 || i >= fs.len() {
        Some((Seq::empty(), p))
    } else {
        let p1 = if i > 0 {
            expect(s, p, ',')
        } else {
            Some(p)
        };
        match p1 {
            None => None,
            Some(p1) => match key(s, skip_ws(s, p1), fs[i].0) {
                None => None,
                Some(p2) => if p2 <= p || p2 > s.len() {
                    None
                } else {
                    match value(s, p2, fs[i].1, adts) {
                        None => None,
                        Some((v, q)) => if q <= p || q > s.len() {
                            None
                        } else {
                            match rec_fields(s, q, fs, i + 1, adts) {
                                Some((vs, r)) => Some((seq![(fs[i].0, v)] + vs, r)),
                                None => None,
                            }
                        },
                    }
                },
            },
        }
    }
}

/// Reads the comma-separated items of a non-empty list of `elem`.
pub open spec fn list_items(s: Seq<char>, p: int, elem: TyV, adts: AdtMap) -> Option<
    (Seq<Val>, int),
>
    decreases s.len() - p, 1nat,
{
    match value(s, p, elem, adts) {
        None => None,
        Some((v, q)) => if q <= p || q > s.len() {
            None
        } else {
            let q1 = skip_ws(s, q);
            if q1 < s.len() && s[q1] == ',' {
                match list_items(s, q1 + 1, elem, adts) {
                    Some((vs, r)) => Some((seq![v] + vs, r)),
                    None => None,
                }
            } else {
                Some((seq![v], q1))
            }
        },
    }
}

// ── self-describing values ──────────────────────────────────────

/// Whether `a` orders before `b`, character by character.
pub open spec fn str_lt(a: Seq<char>, b: Seq<char>) -> bool
    decreases a.len(),
{
    if a.len() == 0 {
        b.len() > 0
    } else if b.len() == 0 {
        false
    } else if a[0] != b[0] {
        (a[0] as u32) < (b[0] as u32)
    } else {
        str_lt(a.drop_first(), b.drop_first())
    }
}

/// Ordering by characters is transitive.
pub proof fn lemma_str_lt_trans(a: Seq<char>, b: Seq<char>, c: Seq<char>)
    requires
        str_lt(a, b),
        str_lt(b, c),
    ensures
        str_lt(a, c),
    decreases a.len(),
{
    if a.len() > 0 && b.len() > 0 && c.len() > 0 && a[0] == b[0] && b[0] == c[0] {
        lemma_str_lt_trans(a.drop_first(), b.drop_first(), c.drop_first());
    }
}

/// Different characters have different code points.
proof fn lemma_char_u32(x: char, y: char)
    requires
        x != y,
    ensures
        (x as u32) != (y as u32),
{
    assert((x as int) != (y as int));
    assert(0 <= (x as int) < 0x110000);
    assert((x as u32) as int == x as int);
    assert((y as u32) as int == y as int);
}

/// Of two different character sequences, one orders before the other.
pub proof fn lemma_str_lt_total(a: Seq<char>, b: Seq<char>)
    requires
        a != b,
    ensures
        str_lt(a, b) || str_lt(b, a),
    decreases a.len(),
{
    if a.len() > 0 && b.len() > 0 && a[0] == b[0] {
        if a.drop_first() == b.drop_first() {
            assert(a =~= seq![a[0]] + a.drop_first());
            assert(b =~= seq![b[0]] + b.drop_first());
        }
        lemma_str_lt_total(a.drop_first(), b.drop_first());
    } else if a.len() > 0 && b.len() > 0 {
        lemma_char_u32(a[0], b[0]);
    } else if a.len() == 0 && b.len() == 0 {
        assert(a =~= b);
    }
}

/// `m` with `k` set to `v`: keys stay in ascending order, and a key that is
/// present gets the new value.
pub open spec fn meta_insert(m: Seq<(Seq<char>, Meta)>, k: Seq<char>, v: Meta) -> Seq<
    (Seq<char>, Meta),
>
    decreases m.len(),
{
    if m.len() == 0 {
        seq![(k, v)]
    } else if m[0].0 == k {
        seq![(k, v)] + m.drop_first()
    } else if str_lt(k, m[0].0) {
        seq![(k, v)] + m
    } else {
        seq![m[0]] + meta_insert(m.drop_first(), k, v)
    }
}

/// Reads a self-describing value.
pub open spec fn meta_value(s: Seq<char>, p: int) -> Option<(Meta, int)>
    decreases s.len() - p, 0nat,
{
    let q = skip_ws(s, p);
    if 0 <= q < s.len() && s[q] == 'n' {
        match literal(s, q, null_text()) {
            Some(r) => Some((Meta::Null, r)),
            None => None,
        }
    } else if 0 <= q < s.len() && s[q] == 't' {
        match literal(s, q, seq!['t', 'r', 'u', 'e']) {
            Some(r) => Some((Meta::Bool(true), r)),
            None => None,
        }
    } else if 0 <= q < s.len() && s[q] == 'f' {
        match literal(s, q, seq!['f', 'a', 'l', 's', 'e']) {
            Some(r) => Some((Meta::Bool(false), r)),
            None => None,
        }
    } else if 0 <= q < s.len() && s[q] == '"' {
        match string(s, q) {
            Some((t, r)) => Some((Meta::Str(t), r)),
            None => None,
        }
    } else if 0 <= q < s.len() && s[q] == '[' {
        let q2 = skip_ws(s, q + 1);
        proof {
            lemma_skip_ws(s, q + 1);
        }
        if q2 < s.len() && s[q2] == ']' {
            Some((Meta::Array(Seq::empty()), q2 + 1))
        } else {
            match meta_items(s, q2) {
                None => None,
                Some((vs, q3)) => match expect(s, q3, ']') {
                    Some(q4) => Some((Meta::Array(vs), q4)),
                    None => None,
                },
            }
        }
    } else if 0 <= q < s.len() && s[q] == '{' {
        match meta_object_body(s, q + 1) {
            Some((m, r)) => Some((Meta::Object(m), r)),
            None => None,
        }
    } else {
        match number_str(s, q) {
            None => None,
            Some((t, r)) => if has_frac(t) {
                if float_syntax(t) {
                    Some((Meta::Float(t), r))
                } else {
                    None
                }
            } else {
                match parse_int(t) {
                    Some(i) => Some((Meta::Int(i), r)),
                    None => None,
                }
            },
        }
    }
}

/// Reads the comma-separated items of a non-empty array of self-describing
/// values.
pub open spec fn meta_items(s: Seq<char>, p: int) -> Option<(Seq<Meta>, int)>
    decreases s.len() - p, 1nat,
{
    match meta_value(s, p) {
        None => None,
        Some((v, q)) => if q <= p || q > s.len() {
            None
        } else {
            let q1 = skip_ws(s, q);
            if q1 < s.len() && s[q1] == ',' {
                match meta_items(s, q1 + 1) {
                    Some((vs, r)) => Some((seq![v] + vs, r)),
                    None => None,
                }
            } else {
                Some((seq![v], q1))
            }
        },
    }
}

/// Reads the members of an object into `acc`, each entry inserted in
/// turn, up to the token after the last member.
pub open spec fn meta_members(s: Seq<char>, p: int, acc: Seq<(Seq<char>, Meta)>) -> Option<
    (Seq<(Seq<char>, Meta)>, int),
>
    decreases s.len() - p, 1nat,
{
    match string(s, skip_ws(s, p)) {
        None => None,
        Some((k, q1)) => match expect(s, q1, ':') {
            None => None,
            Some(q2) => if q2 <= p {
                None
            } else {
                match meta_value(s, q2) {
                    None => None,
                    Some((v, q3)) => if q3 <= p || q3 > s.len() {
                        None
                    } else {
                        let acc2 = meta_insert(acc, k, v);
                        let q4 = skip_ws(s, q3);
                        if q4 < s.len() && s[q4] == ',' {
                            meta_members(s, q4 + 1, acc2)
                        } else {
                            Some((acc2, q4))
                        }
                    },
                }
            },
        },
    }
}

/// Reads an object's body, the `{` already consumed.
pub open spec fn meta_object_body(s: Seq<char>, p: int) -> Option<(Seq<(Seq<char>, Meta)>, int)>
    decreases s.len() - p, 2nat,
{
    let q = skip_ws(s, p);
    proof {
        lemma_skip_ws(s, p);
    }
    if 0 <= q < s.len() && s[q] == '}' {
        Some((Seq::empty(), q + 1))
    } else {
        match meta_members(s, q, Seq::empty()) {
            None => None,
            Some((m, r)) => match expect(s, r, '}') {
                Some(r2) => Some((m, r2)),
                None => None,
            },
        }
    }
}

/// Reads a self-describing object.
pub open spec fn meta_object(s: Seq<char>, p: int) -> Option<(Seq<(Seq<char>, Meta)>, int)> {
    match expect(s, p, '{') {
        Some(q) => meta_object_body(s, q),
        None => None,
    }
}


// ── whole inputs ────────────────────────────────────────────────

/// Decodes a whole input as a value of type `ty`: surrounding whitespace
/// is allowed, anything else after the value is not.
pub open spec fn decode_value(s: Seq<char>, ty: TyV, adts: AdtMap) -> Option<Val> {
    match value(s, skip_ws(s, 0), ty, adts) {
        Some((v, q)) => if skip_ws(s, q) == s.len() {
            Some(v)
        } else {
            None
        },
        None => None,
    }
}

/// Reads `{"schema_version":1,"tool":"<name>"`: the tool name.
pub open spec fn envelope_tool(s: Seq<char>, p: int) -> Option<(Seq<char>, int)> {
    match expect(s, p, '{') {
        None => None,
        Some(q1) => match key(
            s,
            q1,
            seq!['s', 'c', 'h', 'e', 'm', 'a', '_', 'v', 'e', 'r', 's', 'i', 'o', 'n'],
        ) {
            None => None,
            Some(q2) => match number_str(s, skip_ws(s, q2)) {
                None => None,
                Some((t, q3)) => if parse_int(t) == Some(1i64) {
                    match expect(s, q3, ',') {
                        None => None,
                        Some(q4) => match key(s, q4, seq!['t', 'o', 'o', 'l']) {
                            None => None,
                            Some(q5) => string(s, q5),
                        },
                    }
                } else {
                    None
                },
            },
        },
    }
}

/// The first of the error types `errs[i..]` that a value at `p` decodes
/// as, with that value.
pub open spec fn first_err(s: Seq<char>, p: int, errs: Seq<TyV>, i: int, adts: AdtMap) -> Option<
    (Val, int),
>
    decreases errs.len() - i,
{
    if 0 <= i < errs.len() {
        match value(s, p, errs[i], adts) {
            Some(r) => Some(r),
            None => first_err(s, p, errs, i + 1, adts),
        }
    } else {
        None
    }
}

/// Reads a tagged result: `{"ok":…}` against the result type, or
/// `{"err":…}` against the first error type it decodes as.
pub open spec fn result(
    s: Seq<char>,
    p: int,
    ok_ty: TyV,
    errs: Seq<TyV>,
    adts: AdtMap,
) -> Option<(ResultV, int)> {
    match expect(s, p, '{') {
        None => None,
        Some(q1) => match string(s, skip_ws(s, q1)) {
            None => None,
            Some((tag, q2)) => match expect(s, q2, ':') {
                None => None,
                Some(q3) => {
                    let inner = if tag == seq!['o', 'k'] {
                        match value(s, q3, ok_ty, adts) {
                            Some((v, q4)) => Some((ResultV::Success(v), q4)),
                            None => None,
                        }
                    } else if tag == seq!['e', 'r', 'r'] {
                        match first_err(s, q3, errs, 0, adts) {
                            Some((v, q4)) => Some((ResultV::Failure(v), q4)),
                            None => None,
                        }
                    } else {
                        None
                    };
                    match inner {
                        None => None,
                        Some((r, q4)) => match expect(s, q4, '}') {
                            Some(q5) => Some((r, q5)),
                            None => None,
                        },
                    }
                },
            },
        },
    }
}

/// Reads the optional `,"meta":{…}` member at `p`; it is present exactly
/// when a `,` stands at `p`.
pub open spec fn meta_member(s: Seq<char>, p: int) -> Option<
    (Option<Seq<(Seq<char>, Meta)>>, int),
> {
    if 0 <= p < s.len() && s[p] == ',' {
        match key(s, p + 1, seq!['m', 'e', 't', 'a']) {
            None => None,
            Some(q) => match meta_object(s, q) {
                Some((m, r)) => Some((Some(m), r)),
                None => None,
            },
        }
    } else {
        Some((None, p))
    }
}

/// Decodes a whole audit-log line against a tool's argument, result and
/// error types: the envelope fields in their fixed order, a valid
/// timestamp, and nothing after the record but whitespace.
pub open spec fn decode_record(
    s: Seq<char>,
    args_ty: TyV,
    ok_ty: TyV,
    errs: Seq<TyV>,
    adts: AdtMap,
) -> Option<RecordV> {
    match envelope_tool(s, 0) {
        None => None,
        Some((tool, q0)) => match expect(s, q0, ',') {
            None => None,
            Some(q1) => match key(s, q1, seq!['a', 'r', 'g', 's']) {
                None => None,
                Some(q2) => match value(s, q2, args_ty, adts) {
                    None => None,
                    Some((args, q3)) => match expect(s, q3, ',') {
                        None => None,
                        Some(q4) => match key(s, q4, seq!['r', 'e', 's', 'u', 'l', 't']) {
                            None => None,
                            Some(q5) => match result(s, q5, ok_ty, errs, adts) {
                                None => None,
                                Some((res, q6)) => match expect(s, q6, ',') {
                                    None => None,
                                    Some(q7) => match key(
                                        s,
                                        q7,
                                        seq!['t', 'i', 'm', 'e', 's', 't', 'a', 'm', 'p'],
                                    ) {
                                        None => None,
                                        Some(q8) => match string(s, q8) {
                                            None => None,
                                            Some((ts, q9)) => if !valid_timestamp(ts) {
                                                None
                                            } else {
                                                match expect(s, q9, ',') {
                                                    None => None,
                                                    Some(q10) => match key(
                                                        s,
                                                        q10,
                                                        seq!['c', 'a', 'l', 'l', 'e', 'r'],
                                                    ) {
                                                        None => None,
                                                        Some(q11) => match string(s, q11) {
                                                            None => None,
                                                            Some((caller, q12)) => match meta_member(
                                                                s,
                                                                q12,
                                                            ) {
                                                                None => None,
                                                                Some((meta, q13)) => match expect(
                                                                    s,
                                                                    q13,
                                                                    '}',
                                                                ) {
                                                                    None => None,
                                                                    Some(q14) => if skip_ws(s, q14)
                                                                        == s.len() {
                                                                        Some(
                                                                            RecordV {
                                                                                tool,
                                                                                args,
                                                                                result: res,
                                                                                timestamp: ts,
                                                                                caller,
                                                                                meta,
                                                                            },
                                                                        )
                                                                    } else {
                                                                        None
                                                                    },
                                                                },
                                                            },
                                                        },
                                                    },
                                                }
                                            },
                                        },
                                    },
                                },
                            },
                        },
                    },
                },
            },
        },
    }
}

// ── positions only move forward ─────────────────────────────────

/// Skipping whitespace stays within the input.
pub proof fn lemma_skip_ws(s: Seq<char>, p: int)
    ensures
        skip_ws(s, p) >= p,
        0 <= p <= s.len() ==> skip_ws(s, p) <= s.len(),
        !(0 <= p < s.len()) ==> skip_ws(s, p) == p,
    decreases s.len() - p,
{
    if 0 <= p < s.len() && is_ws(s[p]) {
        lemma_skip_ws(s, p + 1);
    }
}

/// Whitespace skipped once is skipped for good.
pub proof fn lemma_skip_ws_idem(s: Seq<char>, p: int)
    ensures
        ws_run(s, skip_ws(s, p)) == 0,
    decreases s.len() - p,
{
    if 0 <= p < s.len() && is_ws(s[p]) {
        lemma_skip_ws_idem(s, p + 1);
    }
}

/// A string body ends after its start, within the input.
pub proof fn lemma_str_body(s: Seq<char>, p: int)
    ensures
        str_body(s, p) matches Some((_, r)) ==> p < r <= s.len(),
    decreases s.len() - p,
{
    if 0 <= p < s.len() {
        let c = s[p];
        if c == '\\' {
            match escape(s, p + 1) {
                Some((e, q)) => if q > p {
                    lemma_str_body(s, q);
                },
                None => {},
            }
        } else if c != '"' && (c as u32) >= 0x20 {
            lemma_str_body(s, p + 1);
        }
    }
}

/// A string literal ends after its start, within the input.
pub proof fn lemma_string(s: Seq<char>, p: int)
    ensures
        string(s, p) matches Some((_, r)) ==> p < r <= s.len(),
{
    lemma_skip_ws(s, p);
    if let Some(q) = expect(s, p, '"') {
        lemma_str_body(s, q);
    }
}

/// A key ends after its start, within the input.
pub proof fn lemma_key(s: Seq<char>, p: int, name: Seq<char>)
    ensures
        key(s, p, name) matches Some(r) ==> p < r <= s.len(),
{
    lemma_string(s, p);
    if let Some((_, q)) = string(s, p) {
        lemma_skip_ws(s, q);
    }
}

/// A constructor head ends after its start, within the input.
pub proof fn lemma_ctor_head(s: Seq<char>, p: int, ctors: Seq<(Seq<char>, Seq<TyV>)>)
    ensures
        ctor_head(s, p, ctors) matches Some((_, r)) ==> p < r <= s.len(),
{
    lemma_skip_ws(s, p);
    if let Some(q1) = expect(s, p, '{') {
        lemma_skip_ws(s, q1);
        lemma_key(s, skip_ws(s, q1), seq!['c', 't', 'o', 'r']);
        if let Some(q2) = key(s, skip_ws(s, q1), seq!['c', 't', 'o', 'r']) {
            lemma_string(s, q2);
            if let Some((_, q3)) = string(s, q2) {
                lemma_skip_ws(s, q3);
                if let Some(q4) = expect(s, q3, ',') {
                    lemma_skip_ws(s, q4);
                    lemma_key(s, skip_ws(s, q4), seq!['a', 'r', 'g', 's']);
                    if let Some(q5) = key(s, skip_ws(s, q4), seq!['a', 'r', 'g', 's']) {
                        lemma_skip_ws(s, q5);
                    }
                }
            }
        }
    }
}

} // verus!
