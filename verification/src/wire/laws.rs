//! The laws of the wire format: decoding gives back what canonical
//! encoding wrote, for every value of the type it is decoded at.
use vstd::prelude::*;

use crate::wire::encode::{
    enc_record, enc_result, head_text, key_text, record_ok, result_val, valid_timestamp,
    digit_val, enc_fields, enc_list, enc_meta, enc_meta_fields, enc_meta_object, enc_metas,
    enc_value, fields_ok, float_finite, is_digit, meta_fields_ok, meta_ok, metas_ok, val_ok,
    vals_ok,
};
use crate::wire::grammar::{
    all_digits, ctor_head, digits_val, escape, expect, find_ctor, fixed_items, float_syntax,
    has_frac, hex4, hex_num, hex_val, is_num_char, is_ws, key, list_items, literal, null_text,
    meta_insert, meta_items, meta_members, meta_object, meta_value, number_str,
    num_run, parse_int, rec_fields, skip_ws, str_body, str_lt, string, strip, subst_all,
    unicode_escape, value, AdtMap,
};
use crate::wire::grammar::{decode_record, envelope_tool, first_err, lemma_skip_ws, meta_member, result};
use crate::wire::value::{Meta, RecordV, ResultV, TyV, Val};
use crate::wire::text::{digit_char, enc_string, esc_body, esc_char, hex_char, int_text, nat_text};

verus! {

/// Whether the text `x` stands in `s` at position `p`.
pub open spec fn at(s: Seq<char>, p: int, x: Seq<char>) -> bool {
    0 <= p && p + x.len() <= s.len() && s.subrange(p, p + x.len()) == x
}

/// Whether a number token would stop at `q`: the input ends there, or a
/// character that no number contains stands there.
pub open spec fn ends_token(s: Seq<char>, q: int) -> bool {
    q >= s.len() || !is_num_char(s[q])
}

/// Text standing at `p` splits into its parts.
pub proof fn lemma_at_split(s: Seq<char>, p: int, x: Seq<char>, y: Seq<char>)
    requires
        at(s, p, x + y),
    ensures
        at(s, p, x),
        at(s, p + x.len(), y),
{
    let w = s.subrange(p, p + x.len() + y.len());
    assert(w == x + y);
    assert(s.subrange(p, p + x.len()) =~= w.subrange(0, x.len() as int));
    assert(w.subrange(0, x.len() as int) =~= x);
    assert(s.subrange(p + x.len(), p + x.len() + y.len()) =~= w.subrange(
        x.len() as int,
        w.len() as int,
    ));
    assert(w.subrange(x.len() as int, w.len() as int) =~= y);
}

/// The character at `p` of text standing at `p`.
pub proof fn lemma_at_index(s: Seq<char>, p: int, x: Seq<char>, i: int)
    requires
        at(s, p, x),
        0 <= i < x.len(),
    ensures
        s[p + i] == x[i],
{
    assert(s.subrange(p, p + x.len())[i] == s[p + i]);
}

/// No whitespace is skipped before a non-whitespace character.
pub proof fn lemma_no_ws(s: Seq<char>, p: int)
    requires
        0 <= p < s.len(),
        !is_ws(s[p]),
    ensures
        skip_ws(s, p) == p,
{
}

/// Expecting the character that stands at `p` consumes it.
pub proof fn lemma_expect_at(s: Seq<char>, p: int, c: char)
    requires
        0 <= p < s.len(),
        s[p] == c,
        !is_ws(c),
    ensures
        expect(s, p, c) == Some(p + 1),
{
}

// ── strings ─────────────────────────────────────────────────────

/// The escaped body of a string, read from the front.
pub proof fn lemma_esc_body_cons(t: Seq<char>)
    requires
        t.len() > 0,
    ensures
        esc_body(t) == esc_char(t[0]) + esc_body(t.drop_first()),
    decreases t.len(),
{
    if t.len() == 1 {
        assert(t.drop_last() =~= Seq::<char>::empty());
        assert(t.drop_first() =~= Seq::<char>::empty());
        assert(esc_body(t.drop_last()) =~= Seq::<char>::empty());
        assert(esc_body(t.drop_first()) =~= Seq::<char>::empty());
        assert(t.last() == t[0]);
        assert(esc_body(t) =~= esc_char(t[0]));
        assert(esc_char(t[0]) + esc_body(t.drop_first()) =~= esc_char(t[0]));
    } else {
        lemma_esc_body_cons(t.drop_last());
        assert(t.drop_last().drop_first() =~= t.drop_first().drop_last());
        assert(t.drop_first().last() == t.last());
        assert(esc_body(t) =~= esc_char(t[0]) + esc_body(t.drop_first()));
    }
}

/// A hexadecimal digit character reads back as its value.
pub proof fn lemma_hex_char(d: nat)
    requires
        d < 16,
    ensures
        hex_val(hex_char(d)) == Some(d),
{
}

/// The `\u00XY` escape of a control character reads back as it.
pub proof fn lemma_control_escape(s: Seq<char>, p: int, c: char)
    requires
        (c as u32) < 0x20,
        at(s, p, seq!['u', '0', '0', hex_char((c as u32 / 16) as nat), hex_char((c as u32 % 16) as nat)]),
    ensures
        escape(s, p) == Some((c, p + 5)),
{
    let x = seq!['u', '0', '0', hex_char((c as u32 / 16) as nat), hex_char((c as u32 % 16) as nat)];
    lemma_at_index(s, p, x, 0);
    let d = s.subrange(p + 1, p + 5);
    assert(d =~= seq!['0', '0', hex_char((c as u32 / 16) as nat), hex_char((c as u32 % 16) as nat)]);
    lemma_hex_char((c as u32 / 16) as nat);
    lemma_hex_char((c as u32 % 16) as nat);
    let d3 = seq!['0', '0', hex_char((c as u32 / 16) as nat)];
    let d2 = seq!['0', '0'];
    let d1 = seq!['0'];
    assert(d.drop_last() =~= d3);
    assert(d3.drop_last() =~= d2);
    assert(d2.drop_last() =~= d1);
    assert(d1.drop_last() =~= Seq::<char>::empty());
    assert(hex_val('0') == Some(0nat));
    assert(hex_num(Seq::<char>::empty()) == Some(0nat));
    assert(hex_num(d1) == Some(0nat));
    assert(hex_num(d2) == Some(0nat));
    assert(hex_num(d3) == Some((c as u32 / 16) as nat));
    assert(hex_num(d) == Some((c as u32) as nat));
    assert(hex4(s, p + 1) == Some(((c as u32) as nat, p + 5)));
    assert(((c as u32) as nat) as char == c);
    assert(unicode_escape(s, p + 1) == Some((c, p + 5)));
}

/// One escaped character reads back as it.
pub proof fn lemma_esc_char_at(s: Seq<char>, p: int, c: char)
    requires
        at(s, p, esc_char(c)),
        c != '"' && c != '\\' && (c as u32) >= 0x20 ==> true,
    ensures
        esc_char(c).len() > 0,
        esc_char(c)[0] == '\\' ==> escape(s, p + 1) == Some((c, p + esc_char(c).len())),
        esc_char(c)[0] != '\\' ==> esc_char(c) == seq![c] && c != '"' && (c as u32) >= 0x20,
{
    let x = esc_char(c);
    if c == '"' || c == '\\' || c == '\u{8}' || c == '\u{c}' || c == '\n' || c == '\r' || c == '\t' {
        lemma_at_index(s, p, x, 1);
    } else if (c as u32) < 0x20 {
        assert(seq!['\\'] + x.drop_first() =~= x);
        assert(x.drop_first() =~= seq![
            'u',
            '0',
            '0',
            hex_char((c as u32 / 16) as nat),
            hex_char((c as u32 % 16) as nat),
        ]);
        lemma_at_split(s, p, seq!['\\'], x.drop_first());
        lemma_control_escape(s, p + 1, c);
    }
}

/// An escaped string body followed by its closing quote reads back as the
/// string.
pub proof fn lemma_str_body_at(s: Seq<char>, p: int, t: Seq<char>)
    requires
        at(s, p, esc_body(t) + seq!['"']),
    ensures
        str_body(s, p) == Some((t, p + esc_body(t).len() + 1)),
    decreases t.len(),
{
    if t.len() == 0 {
        assert(esc_body(t) + seq!['"'] =~= seq!['"']);
        lemma_at_index(s, p, seq!['"'], 0);
    } else {
        lemma_esc_body_cons(t);
        let x = esc_char(t[0]);
        let rest = esc_body(t.drop_first()) + seq!['"'];
        assert(esc_body(t) + seq!['"'] =~= x + rest);
        lemma_at_split(s, p, x, rest);
        lemma_esc_char_at(s, p, t[0]);
        lemma_at_index(s, p, x, 0);
        lemma_str_body_at(s, p + x.len(), t.drop_first());
        assert(seq![t[0]] + t.drop_first() =~= t);
    }
}

/// The string reader inverts the canonical string writer: the literal
/// `write_string` produces for `t`, wherever it stands in the input, reads
/// back as `t` and consumes exactly the written characters.
pub proof fn law_string_round_trip(before: Seq<char>, t: Seq<char>, after: Seq<char>)
    ensures
        string(before + enc_string(t) + after, before.len() as int) == Some(
            (t, (before.len() + enc_string(t).len()) as int),
        ),
{
    let s = before + enc_string(t) + after;
    assert(s.subrange(before.len() as int, (before.len() + enc_string(t).len()) as int) =~= enc_string(t));
    lemma_string_at(s, before.len() as int, t);
}

/// A string literal reads back as its string.
pub proof fn lemma_string_at(s: Seq<char>, p: int, t: Seq<char>)
    requires
        at(s, p, enc_string(t)),
    ensures
        string(s, p) == Some((t, p + enc_string(t).len())),
        enc_string(t).len() >= 2,
        s[p] == '"',
{
    assert(enc_string(t) =~= seq!['"'] + (esc_body(t) + seq!['"']));
    lemma_at_split(s, p, seq!['"'], esc_body(t) + seq!['"']);
    lemma_at_index(s, p, seq!['"'], 0);
    lemma_expect_at(s, p, '"');
    lemma_str_body_at(s, p + 1, t);
}

/// An object key followed by its `:` reads back.
pub proof fn lemma_key_at(s: Seq<char>, p: int, k: Seq<char>)
    requires
        at(s, p, enc_string(k) + seq![':']),
    ensures
        key(s, p, k) == Some(p + enc_string(k).len() + 1),
        s[p] == '"',
{
    lemma_at_split(s, p, enc_string(k), seq![':']);
    lemma_string_at(s, p, k);
    lemma_at_index(s, p + enc_string(k).len(), seq![':'], 0);
    lemma_expect_at(s, p + enc_string(k).len(), ':');
}

// ── numbers ─────────────────────────────────────────────────────

/// A decimal digit character reads back as its value.
pub proof fn lemma_digit_char(d: nat)
    requires
        d < 10,
    ensures
        is_digit(digit_char(d)),
        digit_val(digit_char(d)) == d,
{
}

/// The decimal text of a natural number is a non-empty run of digits
/// whose value is the number.
pub proof fn lemma_nat_text(n: nat)
    ensures
        nat_text(n).len() > 0,
        all_digits(nat_text(n)),
        digits_val(nat_text(n)) == n,
    decreases n,
{
    lemma_digit_char(n % 10);
    if n >= 10 {
        lemma_nat_text(n / 10);
        let t = nat_text(n);
        assert(t.drop_last() =~= nat_text(n / 10));
        assert(t.last() == digit_char(n % 10));
        assert forall|i: int| 0 <= i < t.len() implies is_digit(#[trigger] t[i]) by {
            if i < t.len() - 1 {
                assert(t[i] == nat_text(n / 10)[i]);
            }
        }
    } else {
        assert(nat_text(n).drop_last() =~= Seq::<char>::empty());
        assert(digits_val(Seq::<char>::empty()) == 0);
        assert(nat_text(n).last() == digit_char(n));
    }
}

/// A number token that stands at `p` and ends before a non-number
/// character reads back whole.
pub proof fn lemma_number_at(s: Seq<char>, p: int, t: Seq<char>)
    requires
        t.len() > 0,
        forall|i: int| 0 <= i < t.len() ==> is_num_char(#[trigger] t[i]),
        at(s, p, t),
        ends_token(s, p + t.len()),
    ensures
        number_str(s, p) == Some((t, p + t.len())),
{
    let p1 = if s[p] == '-' {
        p + 1
    } else {
        p
    };
    lemma_num_run(s, p1, p + t.len(), p, t);
    assert(s.subrange(p, p + t.len()) == t);
}

/// The number run from `k` ends at `q` when every character up to `q` may
/// occur in a number and the one at `q` may not.
proof fn lemma_num_run(s: Seq<char>, k: int, q: int, p: int, t: Seq<char>)
    requires
        p <= k <= q,
        q == p + t.len(),
        at(s, p, t),
        forall|i: int| 0 <= i < t.len() ==> is_num_char(#[trigger] t[i]),
        ends_token(s, q),
    ensures
        k + num_run(s, k) == q,
    decreases q - k,
{
    if k < q {
        lemma_at_index(s, p, t, k - p);
        lemma_num_run(s, k + 1, q, p, t);
    }
}

/// An integer's text reads back as the integer.
pub proof fn lemma_int_text(i: i64)
    ensures
        int_text(i as int).len() > 0,
        forall|k: int| 0 <= k < int_text(i as int).len() ==> is_num_char(#[trigger] int_text(i as int)[k]),
        !has_frac(int_text(i as int)),
        parse_int(int_text(i as int)) == Some(i),
        int_text(i as int)[0] == '-' || is_digit(int_text(i as int)[0]),
{
    let t = int_text(i as int);
    if i < 0 {
        lemma_nat_text((-i) as nat);
        let d = nat_text((-i) as nat);
        assert(t.drop_first() =~= d);
        assert forall|k: int| 0 <= k < t.len() implies is_num_char(#[trigger] t[k]) by {
            if k > 0 {
                assert(t[k] == d[k - 1]);
            }
        }
        assert(!t.contains('.') && !t.contains('e') && !t.contains('E')) by {
            assert forall|k: int| 0 <= k < t.len() implies t[k] != '.' && t[k] != 'e' && t[k] != 'E' by {
                if k > 0 {
                    assert(t[k] == d[k - 1]);
                }
            }
        }
    } else {
        lemma_nat_text(i as nat);
        assert forall|k: int| 0 <= k < t.len() implies is_num_char(#[trigger] t[k]) by {
            assert(is_digit(t[k]));
        }
        assert(!t.contains('.') && !t.contains('e') && !t.contains('E')) by {
            assert forall|k: int| 0 <= k < t.len() implies t[k] != '.' && t[k] != 'e' && t[k] != 'E' by {
                assert(is_digit(t[k]));
            }
        }
        assert(is_digit(t[0]));
    }
}

// ── typed values ────────────────────────────────────────────────

/// Whether `t` is the text of a finite float as the decoder reads it: a
/// non-empty run of number characters in decimal syntax.
pub open spec fn float_text(t: Seq<char>) -> bool {
    &&& t.len() > 0
    &&& forall|i: int| 0 <= i < t.len() ==> is_num_char(#[trigger] t[i])
    &&& float_syntax(t)
}

/// Whether `v` is a value of type `ty`, ADTs taken from `adts`: the shape
/// the type dictates, record labels in the type's order, and a
/// constructor of the ADT (the first of its name) with fields of the
/// instantiated field types.
pub open spec fn typed(v: Val, ty: TyV, adts: AdtMap) -> bool
    decreases v, 1nat,
{
    match strip(ty) {
        TyV::Tuple(es) => if es.len() == 0 {
            v == Val::Unit
        } else {
            match v {
                Val::Tuple(items) => typed_all(items, es, adts),
                _ => false,
            }
        },
        TyV::Record(fs) => match v {
            Val::Record(vfs) => typed_fields(vfs, fs, adts),
            _ => false,
        },
        TyV::Con(name, args) => if name == seq!['I', 'n', 't'] && args.len() == 0 {
            v is Int
        } else if name == seq!['F', 'l', 'o', 'a', 't'] && args.len() == 0 {
            match v {
                Val::Float(t) => float_text(t),
                _ => false,
            }
        } else if name == seq!['S', 't', 'r', 'i', 'n', 'g'] && args.len() == 0 {
            v is Str
        } else if name == seq!['L', 'i', 's', 't'] && args.len() == 1 {
            match v {
                Val::List(items) => typed_each(items, args[0], adts),
                _ => false,
            }
        } else if adts.contains_key(name) {
            match v {
                Val::Ctor(n, vs) => match find_ctor(adts[name], n, 0) {
                    Some(idx) => typed_all(vs, subst_all(adts[name][idx].1, args), adts),
                    None => false,
                },
                _ => false,
            }
        } else {
            false
        },
        _ => false,
    }
}

/// Whether each of `items` has the type at its position in `tys`.
pub open spec fn typed_all(items: Seq<Val>, tys: Seq<TyV>, adts: AdtMap) -> bool
    decreases items, 0nat,
{
    items.len() == tys.len() && forall|i: int| 0 <= i < items.len() ==> typed(#[trigger] items[i], tys[i], adts)
}

/// Whether each of `items` has type `elem`.
pub open spec fn typed_each(items: Seq<Val>, elem: TyV, adts: AdtMap) -> bool
    decreases items, 0nat,
{
    forall|i: int| 0 <= i < items.len() ==> typed(#[trigger] items[i], elem, adts)
}

/// Whether the fields `vfs` carry the labels of `fs` in order, each with a
/// value of its field type.
pub open spec fn typed_fields(vfs: Seq<(Seq<char>, Val)>, fs: Seq<(Seq<char>, TyV)>, adts: AdtMap) -> bool
    decreases vfs, 0nat,
{
    vfs.len() == fs.len() && forall|i: int|
        0 <= i < vfs.len() ==> (#[trigger] vfs[i]).0 == fs[i].0 && typed(vfs[i].1, fs[i].1, adts)
}

// ── encodings read from the front ───────────────────────────────

/// The texts of `items[i..]`, each but the first item's after a `,`.
pub open spec fn list_from(items: Seq<Val>, i: int) -> Seq<char>
    decreases items.len() - i,
{
    if i < 0 || i >= items.len() {
        Seq::empty()
    } else {
        (if i > 0 {
            seq![',']
        } else {
            Seq::empty()
        }) + enc_value(items[i]) + list_from(items, i + 1)
    }
}

/// The `"label":value` texts of `fs[i..]`, each but the first field's
/// after a `,`.
pub open spec fn fields_from(fs: Seq<(Seq<char>, Val)>, i: int) -> Seq<char>
    decreases fs.len() - i,
{
    if i < 0 || i >= fs.len() {
        Seq::empty()
    } else {
        (if i > 0 {
            seq![',']
        } else {
            Seq::empty()
        }) + enc_string(fs[i].0) + seq![':'] + enc_value(fs[i].1) + fields_from(fs, i + 1)
    }
}

/// Appending an item extends the text from any start.
proof fn lemma_list_from_push(s: Seq<Val>, x: Val, i: int)
    requires
        0 <= i <= s.len(),
    ensures
        list_from(s.push(x), i) == list_from(s, i) + (if i < s.len() || i > 0 {
            seq![',']
        } else {
            Seq::empty()
        }) + enc_value(x),
    decreases s.len() - i,
{
    if i < s.len() {
        lemma_list_from_push(s, x, i + 1);
        assert(s.push(x)[i] == s[i]);
        let sep = if i > 0 {
            seq![',']
        } else {
            Seq::<char>::empty()
        };
        assert(list_from(s.push(x), i) =~= sep + enc_value(s[i]) + list_from(s.push(x), i + 1));
        assert(list_from(s, i) =~= sep + enc_value(s[i]) + list_from(s, i + 1));
        assert(list_from(s.push(x), i) =~= list_from(s, i) + seq![','] + enc_value(x));
    } else {
        assert(s.push(x)[i] == x);
        assert(list_from(s.push(x), i + 1) =~= Seq::<char>::empty());
        assert(list_from(s, i) =~= Seq::<char>::empty());
        let sep = if i > 0 {
            seq![',']
        } else {
            Seq::<char>::empty()
        };
        assert(list_from(s.push(x), i) =~= sep + enc_value(x));
        assert(list_from(s.push(x), i) =~= list_from(s, i) + sep + enc_value(x));
    }
}

/// The joined texts of a list, read from the front.
pub proof fn lemma_enc_list_from(s: Seq<Val>)
    ensures
        enc_list(s) == list_from(s, 0),
    decreases s.len(),
{
    if s.len() == 0 {
    } else if s.len() == 1 {
        assert(list_from(s, 1) =~= Seq::<char>::empty());
        assert(list_from(s, 0) =~= enc_value(s[0]));
    } else {
        lemma_enc_list_from(s.drop_last());
        lemma_list_from_push(s.drop_last(), s.last(), 0);
        assert(s.drop_last().push(s.last()) =~= s);
    }
}

/// Appending a field extends the text from any start.
proof fn lemma_fields_from_push(s: Seq<(Seq<char>, Val)>, x: (Seq<char>, Val), i: int)
    requires
        0 <= i <= s.len(),
    ensures
        fields_from(s.push(x), i) == fields_from(s, i) + (if i < s.len() || i > 0 {
            seq![',']
        } else {
            Seq::empty()
        }) + enc_string(x.0) + seq![':'] + enc_value(x.1),
    decreases s.len() - i,
{
    if i < s.len() {
        lemma_fields_from_push(s, x, i + 1);
        assert(s.push(x)[i] == s[i]);
        let sep = if i > 0 {
            seq![',']
        } else {
            Seq::<char>::empty()
        };
        let f = enc_string(s[i].0) + seq![':'] + enc_value(s[i].1);
        assert(fields_from(s.push(x), i) =~= sep + f + fields_from(s.push(x), i + 1));
        assert(fields_from(s, i) =~= sep + f + fields_from(s, i + 1));
    } else {
        assert(s.push(x)[i] == x);
        assert(fields_from(s.push(x), i + 1) =~= Seq::<char>::empty());
        assert(fields_from(s, i) =~= Seq::<char>::empty());
    }
}

/// The joined fields of a record, read from the front.
pub proof fn lemma_enc_fields_from(s: Seq<(Seq<char>, Val)>)
    ensures
        enc_fields(s) == fields_from(s, 0),
    decreases s.len(),
{
    if s.len() == 0 {
    } else if s.len() == 1 {
        assert(fields_from(s, 1) =~= Seq::<char>::empty());
        assert(fields_from(s, 0) =~= enc_string(s[0].0) + seq![':'] + enc_value(s[0].1));
    } else {
        lemma_enc_fields_from(s.drop_last());
        lemma_fields_from_push(s.drop_last(), s.last(), 0);
        assert(s.drop_last().push(s.last()) =~= s);
    }
}

/// Text with no character that needs escaping is its own escaped body.
proof fn lemma_plain_body(t: Seq<char>)
    requires
        forall|i: int| 0 <= i < t.len() ==> esc_char(#[trigger] t[i]) == seq![t[i]],
    ensures
        esc_body(t) == t,
    decreases t.len(),
{
    if t.len() > 0 {
        assert forall|i: int| 0 <= i < t.drop_last().len() implies esc_char(#[trigger] t.drop_last()[i])
            == seq![t.drop_last()[i]] by {
            assert(t.drop_last()[i] == t[i]);
        }
        lemma_plain_body(t.drop_last());
        assert(esc_char(t[t.len() - 1]) == seq![t[t.len() - 1]]);
        assert(t.drop_last() + seq![t.last()] =~= t);
    }
}

/// The literal of the key `ctor`.
proof fn lemma_ctor_literal()
    ensures
        enc_string(seq!['c', 't', 'o', 'r']) == seq!['"', 'c', 't', 'o', 'r', '"'],
        enc_string(seq!['a', 'r', 'g', 's']) == seq!['"', 'a', 'r', 'g', 's', '"'],
{
    let c = seq!['c', 't', 'o', 'r'];
    let a = seq!['a', 'r', 'g', 's'];
    assert forall|i: int| 0 <= i < c.len() implies esc_char(#[trigger] c[i]) == seq![c[i]] by {}
    assert forall|i: int| 0 <= i < a.len() implies esc_char(#[trigger] a[i]) == seq![a[i]] by {}
    lemma_plain_body(c);
    lemma_plain_body(a);
    assert(enc_string(c) =~= seq!['"', 'c', 't', 'o', 'r', '"']);
    assert(enc_string(a) =~= seq!['"', 'a', 'r', 'g', 's', '"']);
}

/// The first constructor of a name found is of that name.
proof fn lemma_find_ctor(ctors: Seq<(Seq<char>, Seq<TyV>)>, name: Seq<char>, i: int)
    ensures
        find_ctor(ctors, name, i) matches Some(k) ==> 0 <= k < ctors.len() && ctors[k].0 == name,
    decreases ctors.len() - i,
{
    if 0 <= i < ctors.len() && ctors[i].0 != name {
        lemma_find_ctor(ctors, name, i + 1);
    }
}

/// A typed value's canonical text, standing at `p` and followed by a
/// character that ends number tokens, reads back as the value.
#[verifier::spinoff_prover]
pub proof fn lemma_value_at(s: Seq<char>, p: int, v: Val, ty: TyV, adts: AdtMap)
    requires
        typed(v, ty, adts),
        at(s, p, enc_value(v)),
        ends_token(s, p + enc_value(v).len()),
    ensures
        value(s, p, ty, adts) == Some((v, p + enc_value(v).len())),
        enc_value(v).len() > 0,
        enc_value(v)[0] != ']' && enc_value(v)[0] != ',' && !is_ws(enc_value(v)[0]),
    decreases v, 1nat, 0nat,
{
    let e = enc_value(v);
    match strip(ty) {
        TyV::Tuple(es) => {
            if es.len() == 0 {
                assert(e =~= null_text());
                lemma_at_index(s, p, e, 0);
                lemma_no_ws(s, p);
            } else {
                match v {
                    Val::Tuple(items) => {
                        lemma_tuple_at(s, p, items, ty, es, adts);
                    },
                    _ => {},
                }
            }
        },
        TyV::Record(fs) => {
            match v {
                Val::Record(vfs) => {
                    lemma_record_at(s, p, vfs, ty, fs, adts);
                },
                _ => {},
            }
        },
        TyV::Con(name, args) => {
            if name == seq!['I', 'n', 't'] && args.len() == 0 {
                match v {
                    Val::Int(i) => {
                        lemma_int_text(i);
                        lemma_number_at(s, p, e);
                        lemma_at_index(s, p, e, 0);
                        lemma_no_ws(s, p);
                    },
                    _ => {},
                }
            } else if name == seq!['F', 'l', 'o', 'a', 't'] && args.len() == 0 {
                match v {
                    Val::Float(t) => {
                        lemma_number_at(s, p, e);
                        lemma_at_index(s, p, e, 0);
                        assert(is_num_char(e[0]));
                        lemma_no_ws(s, p);
                    },
                    _ => {},
                }
            } else if name == seq!['S', 't', 'r', 'i', 'n', 'g'] && args.len() == 0 {
                match v {
                    Val::Str(t) => {
                        lemma_string_at(s, p, t);
                        lemma_no_ws(s, p);
                        assert(e[0] == '"');
                    },
                    _ => {},
                }
            } else if name == seq!['L', 'i', 's', 't'] && args.len() == 1 {
                match v {
                    Val::List(items) => {
                        lemma_list_at(s, p, items, ty, name, args, adts);
                    },
                    _ => {},
                }
            } else if adts.contains_key(name) {
                match v {
                    Val::Ctor(n, vs) => {
                        lemma_ctor_at(s, p, n, vs, ty, name, args, adts);
                    },
                    _ => {},
                }
            }
        },
        _ => {},
    }
}

/// A tuple's text reads back.
#[verifier::rlimit(40)]
proof fn lemma_tuple_at(s: Seq<char>, p: int, items: Seq<Val>, ty: TyV, es: Seq<TyV>, adts: AdtMap)
    requires
        strip(ty) == TyV::Tuple(es),
        es.len() > 0,
        typed_all(items, es, adts),
        at(s, p, enc_value(Val::Tuple(items))),
    ensures
        value(s, p, ty, adts) == Some((Val::Tuple(items), p + enc_value(Val::Tuple(items)).len())),
        enc_value(Val::Tuple(items))[0] == '[',
    decreases items, 1nat, 0nat,
{
    let e = enc_value(Val::Tuple(items));
    lemma_enc_list_from(items);
    let lf = list_from(items, 0);
    assert(e =~= seq!['['] + (lf + seq![']']));
    lemma_at_split(s, p, seq!['['], lf + seq![']']);
    lemma_at_index(s, p, e, 0);
    lemma_no_ws(s, p);
    lemma_expect_at(s, p, '[');
    lemma_fixed_at(s, p + 1, items, es, 0, adts);
    lemma_at_split(s, p + 1, lf, seq![']']);
    lemma_at_index(s, p + 1 + lf.len(), seq![']'], 0);
    lemma_expect_at(s, p + 1 + lf.len(), ']');
    assert(items.skip(0) =~= items);
}

/// A record's text reads back.
#[verifier::rlimit(40)]
proof fn lemma_record_at(
    s: Seq<char>,
    p: int,
    vfs: Seq<(Seq<char>, Val)>,
    ty: TyV,
    fs: Seq<(Seq<char>, TyV)>,
    adts: AdtMap,
)
    requires
        strip(ty) == TyV::Record(fs),
        typed_fields(vfs, fs, adts),
        at(s, p, enc_value(Val::Record(vfs))),
    ensures
        value(s, p, ty, adts) == Some((Val::Record(vfs), p + enc_value(Val::Record(vfs)).len())),
        enc_value(Val::Record(vfs))[0] == '{',
    decreases vfs, 1nat, 0nat,
{
    let e = enc_value(Val::Record(vfs));
    lemma_enc_fields_from(vfs);
    let ff = fields_from(vfs, 0);
    assert(e =~= seq!['{'] + (ff + seq!['}']));
    lemma_at_split(s, p, seq!['{'], ff + seq!['}']);
    lemma_at_index(s, p, e, 0);
    lemma_no_ws(s, p);
    lemma_expect_at(s, p, '{');
    lemma_fields_at(s, p + 1, vfs, fs, 0, adts);
    lemma_at_split(s, p + 1, ff, seq!['}']);
    lemma_at_index(s, p + 1 + ff.len(), seq!['}'], 0);
    lemma_expect_at(s, p + 1 + ff.len(), '}');
    assert(vfs.skip(0) =~= vfs);
}

/// A list's text reads back.
#[verifier::rlimit(40)]
proof fn lemma_list_at(
    s: Seq<char>,
    p: int,
    items: Seq<Val>,
    ty: TyV,
    name: Seq<char>,
    args: Seq<TyV>,
    adts: AdtMap,
)
    requires
        strip(ty) == TyV::Con(name, args),
        name == seq!['L', 'i', 's', 't'],
        args.len() == 1,
        typed_each(items, args[0], adts),
        at(s, p, enc_value(Val::List(items))),
    ensures
        value(s, p, ty, adts) == Some((Val::List(items), p + enc_value(Val::List(items)).len())),
        enc_value(Val::List(items))[0] == '[',
    decreases items, 1nat, 0nat,
{
    let e = enc_value(Val::List(items));
    lemma_enc_list_from(items);
    let lf = list_from(items, 0);
    assert(e =~= seq!['['] + (lf + seq![']']));
    lemma_at_split(s, p, seq!['['], lf + seq![']']);
    lemma_at_index(s, p, e, 0);
    lemma_no_ws(s, p);
    lemma_expect_at(s, p, '[');
    lemma_at_split(s, p + 1, lf, seq![']']);
    lemma_at_index(s, p + 1 + lf.len(), seq![']'], 0);
    if items.len() == 0 {
        assert(lf =~= Seq::<char>::empty());
        assert(items =~= Seq::<Val>::empty());
        lemma_no_ws(s, p + 1);
    } else {
        assert(lf =~= enc_value(items[0]) + list_from(items, 1));
        assert(lf + seq![']'] =~= enc_value(items[0]) + (list_from(items, 1) + seq![']']));
        assert(lf + seq![']'] =~= enc_value(items[0]) + list_from(items, 1) + seq![']']);
        assert(typed(items[0], args[0], adts));
        lemma_list_items_at(s, p + 1, items, args[0], 0, adts);
        lemma_value_first(s, p + 1, items[0], args[0], adts, list_from(items, 1) + seq![']']);
        lemma_no_ws(s, p + 1);
        lemma_expect_at(s, p + 1 + lf.len(), ']');
        assert(items.skip(0) =~= items);
        assert(list_items(s, p + 1, args[0], adts) == Some((items, p + 1 + lf.len())));
        assert(s[p + 1] != ']');
        assert(e.len() == lf.len() + 2);
    }
}

/// A constructor application's text reads back.
#[verifier::rlimit(60)]
proof fn lemma_ctor_at(
    s: Seq<char>,
    p: int,
    n: Seq<char>,
    vs: Seq<Val>,
    ty: TyV,
    name: Seq<char>,
    args: Seq<TyV>,
    adts: AdtMap,
)
    requires
        strip(ty) == TyV::Con(name, args),
        !(name == seq!['I', 'n', 't'] && args.len() == 0),
        !(name == seq!['F', 'l', 'o', 'a', 't'] && args.len() == 0),
        !(name == seq!['S', 't', 'r', 'i', 'n', 'g'] && args.len() == 0),
        !(name == seq!['L', 'i', 's', 't'] && args.len() == 1),
        adts.contains_key(name),
        find_ctor(adts[name], n, 0) is Some,
        typed_all(vs, subst_all(adts[name][find_ctor(adts[name], n, 0)->Some_0].1, args), adts),
        at(s, p, enc_value(Val::Ctor(n, vs))),
    ensures
        value(s, p, ty, adts) == Some((Val::Ctor(n, vs), p + enc_value(Val::Ctor(n, vs)).len())),
        enc_value(Val::Ctor(n, vs))[0] == '{',
    decreases vs, 1nat, 0nat,
{
    let e = enc_value(Val::Ctor(n, vs));
    let ctors = adts[name];
    let idx = find_ctor(ctors, n, 0)->Some_0;
    lemma_find_ctor(ctors, n, 0);
    lemma_ctor_literal();
    lemma_enc_list_from(vs);
    let lf = list_from(vs, 0);
    let h1 = seq!['{'];
    let k1 = seq!['"', 'c', 't', 'o', 'r', '"', ':'];
    let sn = enc_string(n);
    let h2 = seq![','];
    let k2 = seq!['"', 'a', 'r', 'g', 's', '"', ':'];
    let h3 = seq!['['];
    let t1 = seq![']'];
    let t2 = seq!['}'];
    assert(e =~= h1 + (k1 + (sn + (h2 + (k2 + (h3 + (lf + (t1 + t2))))))));
    lemma_at_split(s, p, h1, k1 + (sn + (h2 + (k2 + (h3 + (lf + (t1 + t2)))))));
    let p1 = p + 1;
    lemma_at_split(s, p1, k1, sn + (h2 + (k2 + (h3 + (lf + (t1 + t2))))));
    let p2: int = p1 + 7;
    lemma_at_split(s, p2, sn, h2 + (k2 + (h3 + (lf + (t1 + t2)))));
    let p3: int = p2 + sn.len();
    lemma_at_split(s, p3, h2, k2 + (h3 + (lf + (t1 + t2))));
    let p4: int = p3 + 1;
    lemma_at_split(s, p4, k2, h3 + (lf + (t1 + t2)));
    let p5: int = p4 + 7;
    lemma_at_split(s, p5, h3, lf + (t1 + t2));
    let p6: int = p5 + 1;
    lemma_at_split(s, p6, lf, t1 + t2);
    let p7: int = p6 + lf.len();
    lemma_at_split(s, p7, t1, t2);
    lemma_at_index(s, p, h1, 0);
    lemma_no_ws(s, p);
    lemma_expect_at(s, p, '{');
    assert(k1 =~= enc_string(seq!['c', 't', 'o', 'r']) + seq![':']);
    lemma_key_at(s, p1, seq!['c', 't', 'o', 'r']);
    lemma_no_ws(s, p1);
    lemma_string_at(s, p2, n);
    lemma_at_index(s, p3, h2, 0);
    lemma_expect_at(s, p3, ',');
    assert(k2 =~= enc_string(seq!['a', 'r', 'g', 's']) + seq![':']);
    lemma_key_at(s, p4, seq!['a', 'r', 'g', 's']);
    lemma_no_ws(s, p4);
    lemma_at_index(s, p5, h3, 0);
    lemma_expect_at(s, p5, '[');
    assert(ctor_head(s, p, ctors) == Some((idx, p6)));
    assert(lf + (t1 + t2) =~= (lf + seq![']']) + t2);
    lemma_at_split(s, p6, lf + seq![']'], t2);
    lemma_fixed_at(s, p6, vs, subst_all(ctors[idx].1, args), 0, adts);
    lemma_at_index(s, p7, t1, 0);
    lemma_expect_at(s, p7, ']');
    lemma_at_index(s, p7 + 1, t2, 0);
    lemma_expect_at(s, p7 + 1, '}');
    assert(vs.skip(0) =~= vs);
}

/// The first character of a typed value's text.
proof fn lemma_value_first(s: Seq<char>, p: int, v: Val, ty: TyV, adts: AdtMap, rest: Seq<char>)
    requires
        typed(v, ty, adts),
        at(s, p, enc_value(v) + rest),
        rest.len() > 0,
        !is_num_char(rest[0]),
    ensures
        value(s, p, ty, adts) == Some((v, p + enc_value(v).len())),
        !is_ws(s[p]),
        s[p] != ']',
    decreases v, 1nat, 1nat,
{
    lemma_at_split(s, p, enc_value(v), rest);
    lemma_at_index(s, p + enc_value(v).len(), rest, 0);
    lemma_value_at(s, p, v, ty, adts);
    lemma_at_index(s, p, enc_value(v), 0);
}

/// The items `i..` of a fixed-arity array body read back.
#[verifier::spinoff_prover]
proof fn lemma_fixed_at(s: Seq<char>, p: int, items: Seq<Val>, tys: Seq<TyV>, i: int, adts: AdtMap)
    requires
        0 <= i <= items.len(),
        typed_all(items, tys, adts),
        at(s, p, list_from(items, i) + seq![']']),
    ensures
        fixed_items(s, p, tys, i, adts) == Some((items.skip(i), p + list_from(items, i).len())),
    decreases items, 0nat, items.len() - i,
{
    if i >= items.len() {
        assert(items.skip(i) =~= Seq::<Val>::empty());
    } else {
        let sep = if i > 0 {
            seq![',']
        } else {
            Seq::<char>::empty()
        };
        let ev = enc_value(items[i]);
        let rest = list_from(items, i + 1) + seq![']'];
        assert(list_from(items, i) + seq![']'] =~= sep + (ev + rest));
        lemma_at_split(s, p, sep, ev + rest);
        let p1 = p + sep.len();
        if i > 0 {
            lemma_at_index(s, p, sep, 0);
            lemma_expect_at(s, p, ',');
        }
        assert(typed(items[i], tys[i], adts));
        if i + 1 < items.len() {
            assert(rest[0] == ',');
        } else {
            assert(list_from(items, i + 1) =~= Seq::<char>::empty());
            assert(rest[0] == ']');
        }
        lemma_value_first(s, p1, items[i], tys[i], adts, rest);
        lemma_at_split(s, p1, ev, rest);
        lemma_fixed_at(s, p1 + ev.len(), items, tys, i + 1, adts);
        assert(seq![items[i]] + items.skip(i + 1) =~= items.skip(i));
    }
}

/// The items `k..` of a non-empty list body read back.
proof fn lemma_list_items_at(s: Seq<char>, p: int, items: Seq<Val>, elem: TyV, k: int, adts: AdtMap)
    requires
        0 <= k < items.len(),
        typed_each(items, elem, adts),
        at(s, p, enc_value(items[k]) + list_from(items, k + 1) + seq![']']),
    ensures
        list_items(s, p, elem, adts) == Some(
            (items.skip(k), p + (enc_value(items[k]) + list_from(items, k + 1)).len()),
        ),
    decreases items, 0nat, items.len() - k,
{
    let ev = enc_value(items[k]);
    let rest = list_from(items, k + 1) + seq![']'];
    assert(ev + list_from(items, k + 1) + seq![']'] =~= ev + rest);
    assert(typed(items[k], elem, adts));
    if k + 1 < items.len() {
        assert(rest[0] == ',');
    } else {
        assert(list_from(items, k + 1) =~= Seq::<char>::empty());
        assert(rest[0] == ']');
    }
    lemma_value_first(s, p, items[k], elem, adts, rest);
    lemma_at_split(s, p, ev, rest);
    let q = p + ev.len();
    lemma_at_index(s, q, rest, 0);
    lemma_no_ws(s, q);
    if k + 1 < items.len() {
        let ev2 = enc_value(items[k + 1]);
        assert(rest =~= seq![','] + (ev2 + list_from(items, k + 2) + seq![']']));
        lemma_at_split(s, q, seq![','], ev2 + list_from(items, k + 2) + seq![']']);
        lemma_list_items_at(s, q + 1, items, elem, k + 1, adts);
        assert(seq![items[k]] + items.skip(k + 1) =~= items.skip(k));
        assert(list_from(items, k + 1) =~= seq![','] + ev2 + list_from(items, k + 2));
    } else {
        assert(items.skip(k) =~= seq![items[k]]);
    }
}

/// The fields `i..` of a record body read back.
#[verifier::rlimit(40)]
proof fn lemma_fields_at(
    s: Seq<char>,
    p: int,
    vfs: Seq<(Seq<char>, Val)>,
    fs: Seq<(Seq<char>, TyV)>,
    i: int,
    adts: AdtMap,
)
    requires
        0 <= i <= vfs.len(),
        typed_fields(vfs, fs, adts),
        at(s, p, fields_from(vfs, i) + seq!['}']),
    ensures
        rec_fields(s, p, fs, i, adts) == Some((vfs.skip(i), p + fields_from(vfs, i).len())),
    decreases vfs, 0nat, vfs.len() - i,
{
    if i >= vfs.len() {
        assert(vfs.skip(i) =~= Seq::<(Seq<char>, Val)>::empty());
    } else {
        let sep = if i > 0 {
            seq![',']
        } else {
            Seq::<char>::empty()
        };
        let kl = enc_string(vfs[i].0) + seq![':'];
        let ev = enc_value(vfs[i].1);
        let rest = fields_from(vfs, i + 1) + seq!['}'];
        assert(fields_from(vfs, i) + seq!['}'] =~= sep + (kl + (ev + rest)));
        lemma_at_split(s, p, sep, kl + (ev + rest));
        let p1 = p + sep.len();
        if i > 0 {
            lemma_at_index(s, p, sep, 0);
            lemma_expect_at(s, p, ',');
        }
        lemma_at_split(s, p1, kl, ev + rest);
        assert((vfs[i]).0 == fs[i].0 && typed(vfs[i].1, fs[i].1, adts));
        lemma_key_at(s, p1, vfs[i].0);
        lemma_no_ws(s, p1);
        let p2: int = p1 + kl.len();
        if i + 1 < vfs.len() {
            assert(rest[0] == ',');
        } else {
            assert(fields_from(vfs, i + 1) =~= Seq::<char>::empty());
            assert(rest[0] == '}');
        }
        lemma_value_first(s, p2, vfs[i].1, fs[i].1, adts, rest);
        lemma_at_split(s, p2, ev, rest);
        lemma_fields_at(s, p2 + ev.len(), vfs, fs, i + 1, adts);
        assert(seq![(fs[i].0, vfs[i].1)] + vfs.skip(i + 1) =~= vfs.skip(i));
    }
}

// ── the value law ───────────────────────────────────────────────

/// Every float in a typed value is finite text, so the value encodes.
pub proof fn lemma_typed_ok(v: Val, ty: TyV, adts: AdtMap)
    requires
        typed(v, ty, adts),
    ensures
        val_ok(v),
    decreases v, 1nat,
{
    match strip(ty) {
        TyV::Tuple(es) => {
            if es.len() > 0 {
                match v {
                    Val::Tuple(items) => {
                        assert forall|i: int| 0 <= i < items.len() implies val_ok(#[trigger] items[i]) by {
                            lemma_typed_ok(items[i], es[i], adts);
                        }
                        lemma_vals_ok(items);
                    },
                    _ => {},
                }
            }
        },
        TyV::Record(fs) => {
            match v {
                Val::Record(vfs) => {
                    assert forall|i: int| 0 <= i < vfs.len() implies val_ok(#[trigger] vfs[i].1) by {
                        lemma_typed_ok(vfs[i].1, fs[i].1, adts);
                    }
                    lemma_fields_ok(vfs);
                },
                _ => {},
            }
        },
        TyV::Con(name, args) => {
            match v {
                Val::Float(t) => {
                    if !float_finite(t) {
                        assert(!is_num_char(t[1]) || !is_num_char(t[0]));
                    }
                },
                Val::List(items) => {
                    if name == seq!['L', 'i', 's', 't'] && args.len() == 1 {
                        assert forall|i: int| 0 <= i < items.len() implies val_ok(#[trigger] items[i]) by {
                            lemma_typed_ok(items[i], args[0], adts);
                        }
                        lemma_vals_ok(items);
                    }
                },
                Val::Ctor(n, vs) => {
                    let ctors = adts[name];
                    let idx = find_ctor(ctors, n, 0)->Some_0;
                    let ftys = subst_all(ctors[idx].1, args);
                    assert forall|i: int| 0 <= i < vs.len() implies val_ok(#[trigger] vs[i]) by {
                        lemma_typed_ok(vs[i], ftys[i], adts);
                    }
                    lemma_vals_ok(vs);
                },
                _ => {},
            }
        },
        _ => {},
    }
}

/// Values that are each encodable are encodable together.
proof fn lemma_vals_ok(s: Seq<Val>)
    requires
        forall|i: int| 0 <= i < s.len() ==> val_ok(#[trigger] s[i]),
    ensures
        vals_ok(s),
    decreases s.len(),
{
    if s.len() > 0 {
        assert forall|i: int| 0 <= i < s.drop_last().len() implies val_ok(#[trigger] s.drop_last()[i]) by {
            assert(s.drop_last()[i] == s[i]);
        }
        lemma_vals_ok(s.drop_last());
        assert(val_ok(s[s.len() - 1]));
    }
}

/// Fields that are each encodable are encodable together.
proof fn lemma_fields_ok(s: Seq<(Seq<char>, Val)>)
    requires
        forall|i: int| 0 <= i < s.len() ==> val_ok(#[trigger] s[i].1),
    ensures
        fields_ok(s),
    decreases s.len(),
{
    if s.len() > 0 {
        assert forall|i: int| 0 <= i < s.drop_last().len() implies val_ok(#[trigger] s.drop_last()[i].1) by {
            assert(s.drop_last()[i] == s[i]);
        }
        lemma_fields_ok(s.drop_last());
        assert(val_ok(s[s.len() - 1].1));
    }
}

/// Decoding inverts canonical encoding: a value of type `ty` encodes, and
/// its canonical text decodes at `ty` back to the value. Re-encoding the
/// decoded value is therefore byte-identical.
pub proof fn law_value_round_trip(v: Val, ty: TyV, adts: AdtMap)
    requires
        typed(v, ty, adts),
    ensures
        val_ok(v),
        crate::wire::grammar::decode_value(enc_value(v), ty, adts) == Some(v),
{
    lemma_typed_ok(v, ty, adts);
    let s = enc_value(v);
    assert(s.subrange(0, s.len() as int) =~= s);
    lemma_value_at(s, 0, v, ty, adts);
    lemma_no_ws(s, 0);
}

// ── self-describing values ──────────────────────────────────────

/// Whether a meta value reads back as itself: floats are finite decimal
/// text with a fraction or exponent (integer text reads as an integer),
/// and object keys are strictly ascending.
pub open spec fn meta_typed(m: Meta) -> bool
    decreases m, 1nat,
{
    match m {
        Meta::Float(t) => float_text(t) && has_frac(t),
        Meta::Array(items) => metas_typed(items),
        Meta::Object(fs) => object_typed(fs),
        _ => true,
    }
}

/// Whether each of `items` reads back as itself.
pub open spec fn metas_typed(items: Seq<Meta>) -> bool
    decreases items, 0nat,
{
    forall|i: int| 0 <= i < items.len() ==> meta_typed(#[trigger] items[i])
}

/// Whether the keys of `fs` are strictly ascending and each value reads
/// back as itself.
pub open spec fn object_typed(fs: Seq<(Seq<char>, Meta)>) -> bool
    decreases fs, 0nat,
{
    &&& forall|i: int, j: int| 0 <= i < j < fs.len() ==> str_lt(#[trigger] fs[i].0, #[trigger] fs[j].0)
    &&& forall|i: int| 0 <= i < fs.len() ==> meta_typed(#[trigger] fs[i].1)
}

/// A key orders before a different key or after it, never both.
pub proof fn lemma_str_lt_asym(a: Seq<char>, b: Seq<char>)
    ensures
        str_lt(a, b) ==> a != b && !str_lt(b, a),
    decreases a.len(),
{
    if a.len() > 0 && b.len() > 0 && a[0] == b[0] {
        lemma_str_lt_asym(a.drop_first(), b.drop_first());
        if a == b {
            assert(a.drop_first() == b.drop_first());
        }
    }
}

/// Inserting a key above every present key appends it.
proof fn lemma_meta_insert_last(m: Seq<(Seq<char>, Meta)>, k: Seq<char>, v: Meta)
    requires
        forall|i: int| 0 <= i < m.len() ==> str_lt(#[trigger] m[i].0, k),
    ensures
        meta_insert(m, k, v) == m.push((k, v)),
    decreases m.len(),
{
    if m.len() > 0 {
        lemma_str_lt_asym(m[0].0, k);
        assert forall|i: int| 0 <= i < m.drop_first().len() implies str_lt(#[trigger] m.drop_first()[i].0, k) by {
            assert(m.drop_first()[i] == m[i + 1]);
        }
        lemma_meta_insert_last(m.drop_first(), k, v);
        assert(seq![m[0]] + m.drop_first().push((k, v)) =~= m.push((k, v)));
    }
}

/// The texts of `items[i..]`, each but the first item's after a `,`.
pub open spec fn metas_from(items: Seq<Meta>, i: int) -> Seq<char>
    decreases items.len() - i,
{
    if i < 0 || i >= items.len() {
        Seq::empty()
    } else {
        (if i > 0 {
            seq![',']
        } else {
            Seq::empty()
        }) + enc_meta(items[i]) + metas_from(items, i + 1)
    }
}

/// The `"key":value` texts of `fs[i..]`, each but the first after a `,`.
pub open spec fn members_from(fs: Seq<(Seq<char>, Meta)>, i: int) -> Seq<char>
    decreases fs.len() - i,
{
    if i < 0 || i >= fs.len() {
        Seq::empty()
    } else {
        (if i > 0 {
            seq![',']
        } else {
            Seq::empty()
        }) + enc_string(fs[i].0) + seq![':'] + enc_meta(fs[i].1) + members_from(fs, i + 1)
    }
}

/// Appending an item extends the text from any start.
proof fn lemma_metas_from_push(s: Seq<Meta>, x: Meta, i: int)
    requires
        0 <= i <= s.len(),
    ensures
        metas_from(s.push(x), i) == metas_from(s, i) + (if i < s.len() || i > 0 {
            seq![',']
        } else {
            Seq::empty()
        }) + enc_meta(x),
    decreases s.len() - i,
{
    if i < s.len() {
        lemma_metas_from_push(s, x, i + 1);
        assert(s.push(x)[i] == s[i]);
        let sep = if i > 0 {
            seq![',']
        } else {
            Seq::<char>::empty()
        };
        assert(metas_from(s.push(x), i) =~= sep + enc_meta(s[i]) + metas_from(s.push(x), i + 1));
        assert(metas_from(s, i) =~= sep + enc_meta(s[i]) + metas_from(s, i + 1));
    } else {
        assert(s.push(x)[i] == x);
        assert(metas_from(s.push(x), i + 1) =~= Seq::<char>::empty());
        assert(metas_from(s, i) =~= Seq::<char>::empty());
    }
}

/// The joined texts of an array, read from the front.
proof fn lemma_enc_metas_from(s: Seq<Meta>)
    ensures
        enc_metas(s) == metas_from(s, 0),
    decreases s.len(),
{
    if s.len() == 1 {
        assert(metas_from(s, 1) =~= Seq::<char>::empty());
        assert(metas_from(s, 0) =~= enc_meta(s[0]));
    } else if s.len() > 1 {
        lemma_enc_metas_from(s.drop_last());
        lemma_metas_from_push(s.drop_last(), s.last(), 0);
        assert(s.drop_last().push(s.last()) =~= s);
    }
}

/// Appending a member extends the text from any start.
proof fn lemma_members_from_push(s: Seq<(Seq<char>, Meta)>, x: (Seq<char>, Meta), i: int)
    requires
        0 <= i <= s.len(),
    ensures
        members_from(s.push(x), i) == members_from(s, i) + (if i < s.len() || i > 0 {
            seq![',']
        } else {
            Seq::empty()
        }) + enc_string(x.0) + seq![':'] + enc_meta(x.1),
    decreases s.len() - i,
{
    if i < s.len() {
        lemma_members_from_push(s, x, i + 1);
        assert(s.push(x)[i] == s[i]);
        let sep = if i > 0 {
            seq![',']
        } else {
            Seq::<char>::empty()
        };
        let f = enc_string(s[i].0) + seq![':'] + enc_meta(s[i].1);
        assert(members_from(s.push(x), i) =~= sep + f + members_from(s.push(x), i + 1));
        assert(members_from(s, i) =~= sep + f + members_from(s, i + 1));
    } else {
        assert(s.push(x)[i] == x);
        assert(members_from(s.push(x), i + 1) =~= Seq::<char>::empty());
        assert(members_from(s, i) =~= Seq::<char>::empty());
    }
}

/// The joined members of an object, read from the front.
proof fn lemma_enc_members_from(s: Seq<(Seq<char>, Meta)>)
    ensures
        enc_meta_fields(s) == members_from(s, 0),
    decreases s.len(),
{
    if s.len() == 1 {
        assert(members_from(s, 1) =~= Seq::<char>::empty());
        assert(members_from(s, 0) =~= enc_string(s[0].0) + seq![':'] + enc_meta(s[0].1));
    } else if s.len() > 1 {
        lemma_enc_members_from(s.drop_last());
        lemma_members_from_push(s.drop_last(), s.last(), 0);
        assert(s.drop_last().push(s.last()) =~= s);
    }
}

/// A meta value's canonical text, standing at `p` and followed by a
/// character that ends number tokens, reads back as the value.
#[verifier::rlimit(40)]
pub proof fn lemma_meta_at(s: Seq<char>, p: int, m: Meta)
    requires
        meta_typed(m),
        at(s, p, enc_meta(m)),
        ends_token(s, p + enc_meta(m).len()),
    ensures
        meta_value(s, p) == Some((m, p + enc_meta(m).len())),
        enc_meta(m).len() > 0,
        enc_meta(m)[0] != ']' && enc_meta(m)[0] != ',' && enc_meta(m)[0] != '}' && !is_ws(enc_meta(m)[0]),
    decreases m, 1nat, 0nat,
{
    let e = enc_meta(m);
    match m {
        Meta::Null => {
            lemma_at_index(s, p, e, 0);
            assert(e =~= null_text());
        },
        Meta::Bool(b) => {
            lemma_at_index(s, p, e, 0);
        },
        Meta::Int(i) => {
            lemma_int_text(i);
            lemma_number_at(s, p, e);
            lemma_at_index(s, p, e, 0);
        },
        Meta::Float(t) => {
            lemma_number_at(s, p, e);
            lemma_at_index(s, p, e, 0);
            assert(is_num_char(e[0]));
        },
        Meta::Str(t) => {
            lemma_string_at(s, p, t);
        },
        Meta::Array(items) => {
            lemma_meta_array_at(s, p, items);
        },
        Meta::Object(fs) => {
            lemma_object_at(s, p, fs);
            lemma_at_index(s, p, e, 0);
            assert(e =~= seq!['{'] + enc_meta_fields(fs) + seq!['}']);
        },
    }
}

/// An array's text reads back.
#[verifier::rlimit(40)]
proof fn lemma_meta_array_at(s: Seq<char>, p: int, items: Seq<Meta>)
    requires
        metas_typed(items),
        at(s, p, enc_meta(Meta::Array(items))),
    ensures
        meta_value(s, p) == Some((Meta::Array(items), p + enc_meta(Meta::Array(items)).len())),
        enc_meta(Meta::Array(items))[0] == '[',
    decreases items, 1nat, 0nat,
{
    let e = enc_meta(Meta::Array(items));
    lemma_enc_metas_from(items);
    let lf = metas_from(items, 0);
    assert(e =~= seq!['['] + (lf + seq![']']));
    lemma_at_split(s, p, seq!['['], lf + seq![']']);
    lemma_at_index(s, p, e, 0);
    lemma_no_ws(s, p);
    lemma_at_split(s, p + 1, lf, seq![']']);
    lemma_at_index(s, p + 1 + lf.len(), seq![']'], 0);
    if items.len() == 0 {
        assert(lf =~= Seq::<char>::empty());
        assert(items =~= Seq::<Meta>::empty());
        lemma_no_ws(s, p + 1);
    } else {
        assert(lf =~= enc_meta(items[0]) + metas_from(items, 1));
        assert(lf + seq![']'] =~= enc_meta(items[0]) + metas_from(items, 1) + seq![']']);
        assert(lf + seq![']'] =~= enc_meta(items[0]) + (metas_from(items, 1) + seq![']']));
        lemma_meta_items_at(s, p + 1, items, 0);
        lemma_meta_first(s, p + 1, items[0], metas_from(items, 1) + seq![']']);
        lemma_no_ws(s, p + 1);
        lemma_expect_at(s, p + 1 + lf.len(), ']');
        assert(items.skip(0) =~= items);
        assert(meta_items(s, p + 1) == Some((items, p + 1 + lf.len())));
    }
}

/// An object's text reads back.
#[verifier::rlimit(40)]
proof fn lemma_object_at(s: Seq<char>, p: int, fs: Seq<(Seq<char>, Meta)>)
    requires
        object_typed(fs),
        at(s, p, enc_meta_object(fs)),
    ensures
        meta_value(s, p) == Some((Meta::Object(fs), p + enc_meta_object(fs).len())),
        meta_object(s, p) == Some((fs, p + enc_meta_object(fs).len())),
        enc_meta_object(fs)[0] == '{',
    decreases fs, 1nat, 0nat,
{
    let e = enc_meta_object(fs);
    lemma_enc_members_from(fs);
    let mf = members_from(fs, 0);
    assert(e =~= seq!['{'] + (mf + seq!['}']));
    lemma_at_split(s, p, seq!['{'], mf + seq!['}']);
    lemma_at_index(s, p, e, 0);
    lemma_no_ws(s, p);
    lemma_expect_at(s, p, '{');
    lemma_at_split(s, p + 1, mf, seq!['}']);
    lemma_at_index(s, p + 1 + mf.len(), seq!['}'], 0);
    if fs.len() == 0 {
        assert(mf =~= Seq::<char>::empty());
        assert(fs =~= Seq::<(Seq<char>, Meta)>::empty());
        lemma_no_ws(s, p + 1);
    } else {
        assert(fs.take(0) =~= Seq::<(Seq<char>, Meta)>::empty());
        lemma_members_at(s, p + 1, fs, 0);
        lemma_at_index(s, p + 1, mf, 0);
        lemma_no_ws(s, p + 1);
        lemma_expect_at(s, p + 1 + mf.len(), '}');
        assert(meta_members(s, p + 1, Seq::empty()) == Some((fs, p + 1 + mf.len())));
    }
}

/// The first character of a meta value's text.
proof fn lemma_meta_first(s: Seq<char>, p: int, m: Meta, rest: Seq<char>)
    requires
        meta_typed(m),
        at(s, p, enc_meta(m) + rest),
        rest.len() > 0,
        !is_num_char(rest[0]),
    ensures
        meta_value(s, p) == Some((m, p + enc_meta(m).len())),
        !is_ws(s[p]),
        s[p] != ']',
        s[p] != '}',
    decreases m, 1nat, 1nat,
{
    lemma_at_split(s, p, enc_meta(m), rest);
    lemma_at_index(s, p + enc_meta(m).len(), rest, 0);
    lemma_meta_at(s, p, m);
    lemma_at_index(s, p, enc_meta(m), 0);
}

/// The items `k..` of a non-empty array body read back.
proof fn lemma_meta_items_at(s: Seq<char>, p: int, items: Seq<Meta>, k: int)
    requires
        0 <= k < items.len(),
        metas_typed(items),
        at(s, p, enc_meta(items[k]) + metas_from(items, k + 1) + seq![']']),
    ensures
        meta_items(s, p) == Some((items.skip(k), p + (enc_meta(items[k]) + metas_from(items, k + 1)).len())),
    decreases items, 0nat, items.len() - k,
{
    let ev = enc_meta(items[k]);
    let rest = metas_from(items, k + 1) + seq![']'];
    assert(ev + metas_from(items, k + 1) + seq![']'] =~= ev + rest);
    assert(meta_typed(items[k]));
    if k + 1 < items.len() {
        assert(rest[0] == ',');
    } else {
        assert(metas_from(items, k + 1) =~= Seq::<char>::empty());
        assert(rest[0] == ']');
    }
    lemma_meta_first(s, p, items[k], rest);
    lemma_at_split(s, p, ev, rest);
    let q = p + ev.len();
    lemma_at_index(s, q, rest, 0);
    lemma_no_ws(s, q);
    if k + 1 < items.len() {
        let ev2 = enc_meta(items[k + 1]);
        assert(rest =~= seq![','] + (ev2 + metas_from(items, k + 2) + seq![']']));
        lemma_at_split(s, q, seq![','], ev2 + metas_from(items, k + 2) + seq![']']);
        lemma_meta_items_at(s, q + 1, items, k + 1);
        assert(seq![items[k]] + items.skip(k + 1) =~= items.skip(k));
        assert(metas_from(items, k + 1) =~= seq![','] + ev2 + metas_from(items, k + 2));
    } else {
        assert(items.skip(k) =~= seq![items[k]]);
    }
}

/// The members `k..` of a non-empty object body read back onto the
/// members before them.
#[verifier::rlimit(40)]
#[verifier::spinoff_prover]
proof fn lemma_members_at(s: Seq<char>, p: int, fs: Seq<(Seq<char>, Meta)>, k: int)
    requires
        0 <= k < fs.len(),
        object_typed(fs),
        at(s, p, members_from(fs, k) + seq!['}']),
        k > 0 ==> s[p] == ',',
    ensures
        meta_members(s, if k > 0 { p + 1 } else { p }, fs.take(k)) == Some((fs, p + members_from(fs, k).len())),
    decreases fs, 0nat, fs.len() - k,
{
    let sep = if k > 0 {
        seq![',']
    } else {
        Seq::<char>::empty()
    };
    let kl = enc_string(fs[k].0) + seq![':'];
    let ev = enc_meta(fs[k].1);
    let rest = members_from(fs, k + 1) + seq!['}'];
    assert(members_from(fs, k) + seq!['}'] =~= sep + (kl + (ev + rest)));
    lemma_at_split(s, p, sep, kl + (ev + rest));
    let p1 = p + sep.len();
    lemma_at_split(s, p1, kl, ev + rest);
    assert(kl + (ev + rest) =~= enc_string(fs[k].0) + (seq![':'] + (ev + rest)));
    lemma_at_split(s, p1, enc_string(fs[k].0), seq![':'] + (ev + rest));
    lemma_string_at(s, p1, fs[k].0);
    lemma_no_ws(s, p1);
    let p2: int = p1 + enc_string(fs[k].0).len();
    lemma_at_index(s, p2, seq![':'] + (ev + rest), 0);
    lemma_expect_at(s, p2, ':');
    let p3: int = p2 + 1;
    assert(meta_typed(fs[k].1));
    if k + 1 < fs.len() {
        assert(rest[0] == ',');
    } else {
        assert(members_from(fs, k + 1) =~= Seq::<char>::empty());
        assert(rest[0] == '}');
    }
    lemma_at_split(s, p2, seq![':'], ev + rest);
    lemma_meta_first(s, p3, fs[k].1, rest);
    lemma_at_split(s, p3, ev, rest);
    let q = p3 + ev.len();
    lemma_at_index(s, q, rest, 0);
    lemma_no_ws(s, q);
    assert forall|i: int| 0 <= i < fs.take(k).len() implies str_lt(#[trigger] fs.take(k)[i].0, fs[k].0) by {
        assert(fs.take(k)[i] == fs[i]);
    }
    lemma_meta_insert_last(fs.take(k), fs[k].0, fs[k].1);
    assert(fs.take(k).push((fs[k].0, fs[k].1)) =~= fs.take(k + 1));
    if k + 1 < fs.len() {
        lemma_members_at(s, q, fs, k + 1);
    } else {
        assert(fs.take(k + 1) =~= fs);
    }
}

// ── the record law ──────────────────────────────────────────────

/// Every float in a meta value that reads back is finite text.
proof fn lemma_meta_typed_ok(m: Meta)
    requires
        meta_typed(m),
    ensures
        meta_ok(m),
    decreases m, 1nat,
{
    match m {
        Meta::Float(t) => {
            if !float_finite(t) {
                assert(!is_num_char(t[1]) || !is_num_char(t[0]));
            }
        },
        Meta::Array(items) => {
            assert forall|i: int| 0 <= i < items.len() implies meta_ok(#[trigger] items[i]) by {
                lemma_meta_typed_ok(items[i]);
            }
            lemma_metas_ok(items);
        },
        Meta::Object(fs) => {
            assert forall|i: int| 0 <= i < fs.len() implies meta_ok(#[trigger] fs[i].1) by {
                lemma_meta_typed_ok(fs[i].1);
            }
            lemma_meta_fields_ok(fs);
        },
        _ => {},
    }
}

/// Meta values that are each encodable are encodable together.
proof fn lemma_metas_ok(s: Seq<Meta>)
    requires
        forall|i: int| 0 <= i < s.len() ==> meta_ok(#[trigger] s[i]),
    ensures
        metas_ok(s),
    decreases s.len(),
{
    if s.len() > 0 {
        assert forall|i: int| 0 <= i < s.drop_last().len() implies meta_ok(#[trigger] s.drop_last()[i]) by {
            assert(s.drop_last()[i] == s[i]);
        }
        lemma_metas_ok(s.drop_last());
        assert(meta_ok(s[s.len() - 1]));
    }
}

/// Members that are each encodable are encodable together.
proof fn lemma_meta_fields_ok(s: Seq<(Seq<char>, Meta)>)
    requires
        forall|i: int| 0 <= i < s.len() ==> meta_ok(#[trigger] s[i].1),
    ensures
        meta_fields_ok(s),
    decreases s.len(),
{
    if s.len() > 0 {
        assert forall|i: int| 0 <= i < s.drop_last().len() implies meta_ok(#[trigger] s.drop_last()[i].1) by {
            assert(s.drop_last()[i] == s[i]);
        }
        lemma_meta_fields_ok(s.drop_last());
        assert(meta_ok(s[s.len() - 1].1));
    }
}

/// Whether type `t` refuses the canonical text of `v` wherever it stands.
pub open spec fn rejects(t: TyV, v: Val, adts: AdtMap) -> bool {
    forall|s: Seq<char>, p: int|
        #![trigger value(s, p, t, adts)]
        at(s, p, enc_value(v)) && ends_token(s, p + enc_value(v).len()) ==> value(s, p, t, adts) is None
}

/// Whether a result reads back under a tool's result and error types: a
/// success of the result type, or a failure of an error type that no
/// earlier error type reads the text of.
pub open spec fn result_typed(r: ResultV, ok_ty: TyV, errs: Seq<TyV>, adts: AdtMap) -> bool {
    match r {
        ResultV::Success(v) => typed(v, ok_ty, adts),
        ResultV::Failure(v) => exists|k: int|
            0 <= k < errs.len() && typed(v, #[trigger] errs[k], adts) && forall|j: int|
                0 <= j < k ==> rejects(#[trigger] errs[j], v, adts),
    }
}

/// Whether a record reads back under a tool's signature: typed args and
/// result, a valid timestamp, and meta that reads back.
pub open spec fn record_typed(r: RecordV, args_ty: TyV, ok_ty: TyV, errs: Seq<TyV>, adts: AdtMap) -> bool {
    &&& typed(r.args, args_ty, adts)
    &&& result_typed(r.result, ok_ty, errs, adts)
    &&& valid_timestamp(r.timestamp)
    &&& r.meta matches Some(m) ==> object_typed(m)
}

/// Error types that refuse the text are skipped.
proof fn lemma_first_err_skip(s: Seq<char>, p: int, errs: Seq<TyV>, v: Val, k: int, adts: AdtMap)
    requires
        0 <= k < errs.len(),
        forall|j: int| 0 <= j < k ==> rejects(#[trigger] errs[j], v, adts),
        at(s, p, enc_value(v)),
        ends_token(s, p + enc_value(v).len()),
    ensures
        forall|i: int| 0 <= i <= k ==> first_err(s, p, errs, i, adts) == first_err(s, p, errs, k, adts),
    decreases k,
{
    if k > 0 {
        assert(rejects(errs[k - 1], v, adts));
        assert(value(s, p, errs[k - 1], adts) is None);
        lemma_first_err_skip(s, p, errs, v, k - 1, adts);
    }
}

/// A key of plain characters is its own escaped body.
proof fn lemma_plain_key(k: Seq<char>)
    requires
        forall|i: int| 0 <= i < k.len() ==> ('a' <= #[trigger] k[i] <= 'z' || k[i] == '_'),
    ensures
        enc_string(k) == seq!['"'] + k + seq!['"'],
        key_text(k) == seq![','] + (enc_string(k) + seq![':']),
{
    assert forall|i: int| 0 <= i < k.len() implies esc_char(#[trigger] k[i]) == seq![k[i]] by {}
    lemma_plain_body(k);
    assert(key_text(k) =~= seq![','] + (enc_string(k) + seq![':']));
}

/// An envelope key standing at `p` reads back after its `,`.
proof fn lemma_key_text_at(s: Seq<char>, p: int, k: Seq<char>)
    requires
        forall|i: int| 0 <= i < k.len() ==> ('a' <= #[trigger] k[i] <= 'z' || k[i] == '_'),
        at(s, p, key_text(k)),
    ensures
        expect(s, p, ',') == Some(p + 1),
        key(s, p + 1, k) == Some(p + key_text(k).len()),
        key_text(k).len() == k.len() + 4,
{
    lemma_plain_key(k);
    lemma_at_split(s, p, seq![','], enc_string(k) + seq![':']);
    lemma_at_index(s, p, seq![','], 0);
    lemma_expect_at(s, p, ',');
    lemma_key_at(s, p + 1, k);
}

/// The frame of a tagged result, `{"tag":` and the closing `}`, reads
/// back around a value text `ev`.
proof fn lemma_result_frame(s: Seq<char>, p: int, tag: Seq<char>, ev: Seq<char>)
    requires
        forall|i: int| 0 <= i < tag.len() ==> ('a' <= #[trigger] tag[i] <= 'z' || tag[i] == '_'),
        at(s, p, seq!['{'] + (enc_string(tag) + (seq![':'] + (ev + seq!['}'])))),
    ensures
        expect(s, p, '{') == Some(p + 1),
        skip_ws(s, p + 1) == p + 1,
        string(s, p + 1) == Some((tag, p + 1 + enc_string(tag).len())),
        expect(s, p + 1 + enc_string(tag).len(), ':') == Some(p + enc_string(tag).len() + 2),
        at(s, p + enc_string(tag).len() + 2, ev),
        expect(s, p + enc_string(tag).len() + 2 + ev.len(), '}') == Some(
            p + enc_string(tag).len() + 3 + ev.len(),
        ),
        ends_token(s, p + enc_string(tag).len() + 2 + ev.len()),
{
    lemma_at_split(s, p, seq!['{'], enc_string(tag) + (seq![':'] + (ev + seq!['}'])));
    lemma_at_index(s, p, seq!['{'], 0);
    lemma_expect_at(s, p, '{');
    lemma_at_split(s, p + 1, enc_string(tag), seq![':'] + (ev + seq!['}']));
    lemma_string_at(s, p + 1, tag);
    lemma_no_ws(s, p + 1);
    let q2: int = p + 1 + enc_string(tag).len();
    lemma_at_split(s, q2, seq![':'], ev + seq!['}']);
    lemma_at_index(s, q2, seq![':'], 0);
    lemma_expect_at(s, q2, ':');
    let q3: int = q2 + 1;
    lemma_at_split(s, q3, ev, seq!['}']);
    lemma_at_index(s, q3 + ev.len(), seq!['}'], 0);
    lemma_expect_at(s, q3 + ev.len(), '}');
}

/// A success's text reads back.
#[verifier::spinoff_prover]
proof fn lemma_success_at(s: Seq<char>, p: int, v: Val, ok_ty: TyV, errs: Seq<TyV>, adts: AdtMap)
    requires
        typed(v, ok_ty, adts),
        at(s, p, enc_result(ResultV::Success(v))),
    ensures
        result(s, p, ok_ty, errs, adts) == Some(
            (ResultV::Success(v), p + enc_result(ResultV::Success(v)).len()),
        ),
{
    let tag = seq!['o', 'k'];
    let ev = enc_value(v);
    lemma_plain_key(tag);
    assert(enc_result(ResultV::Success(v)) =~= seq!['{'] + (enc_string(tag) + (seq![':'] + (ev
        + seq!['}']))));
    lemma_result_frame(s, p, tag, ev);
    let q3: int = p + enc_string(tag).len() + 2;
    lemma_value_at(s, q3, v, ok_ty, adts);
}

/// A failure's text reads back under the first error type that reads it.
#[verifier::spinoff_prover]
#[verifier::rlimit(50)]
proof fn lemma_failure_at(s: Seq<char>, p: int, v: Val, k: int, errs: Seq<TyV>, ok_ty: TyV, adts: AdtMap)
    requires
        0 <= k < errs.len(),
        typed(v, errs[k], adts),
        forall|j: int| 0 <= j < k ==> rejects(#[trigger] errs[j], v, adts),
        at(s, p, enc_result(ResultV::Failure(v))),
    ensures
        result(s, p, ok_ty, errs, adts) == Some(
            (ResultV::Failure(v), p + enc_result(ResultV::Failure(v)).len()),
        ),
{
    let tag = seq!['e', 'r', 'r'];
    let ev = enc_value(v);
    lemma_plain_key(tag);
    assert(enc_result(ResultV::Failure(v)) =~= seq!['{'] + (enc_string(tag) + (seq![':'] + (ev
        + seq!['}']))));
    lemma_result_frame(s, p, tag, ev);
    let q3: int = p + enc_string(tag).len() + 2;
    lemma_value_at(s, q3, v, errs[k], adts);
    lemma_first_err_skip(s, q3, errs, v, k, adts);
    assert(first_err(s, q3, errs, k, adts) == Some((v, q3 + ev.len())));
    assert(first_err(s, q3, errs, 0, adts) == Some((v, q3 + ev.len())));
    assert(tag != seq!['o', 'k']) by {
        assert(tag.len() != seq!['o', 'k'].len());
    }
}

/// A tagged result's text reads back.
proof fn lemma_result_at(s: Seq<char>, p: int, r: ResultV, ok_ty: TyV, errs: Seq<TyV>, adts: AdtMap)
    requires
        result_typed(r, ok_ty, errs, adts),
        at(s, p, enc_result(r)),
    ensures
        result(s, p, ok_ty, errs, adts) == Some((r, p + enc_result(r).len())),
{
    match r {
        ResultV::Success(x) => {
            lemma_success_at(s, p, x, ok_ty, errs, adts);
        },
        ResultV::Failure(x) => {
            let k = choose|k: int|
                0 <= k < errs.len() && typed(x, #[trigger] errs[k], adts) && forall|j: int|
                    0 <= j < k ==> rejects(#[trigger] errs[j], x, adts);
            lemma_failure_at(s, p, x, k, errs, ok_ty, adts);
        },
    }
}

/// The fixed envelope prefix reads back with the tool name.
#[verifier::rlimit(40)]
proof fn lemma_envelope_at(s: Seq<char>, tool: Seq<char>)
    requires
        at(s, 0, head_text() + enc_string(tool)),
    ensures
        envelope_tool(s, 0) == Some((tool, (head_text() + enc_string(tool)).len() as int)),
{
    let sv = seq!['s', 'c', 'h', 'e', 'm', 'a', '_', 'v', 'e', 'r', 's', 'i', 'o', 'n'];
    let tk = seq!['t', 'o', 'o', 'l'];
    lemma_plain_key(sv);
    lemma_plain_key(tk);
    let one = seq!['1'];
    assert(head_text() + enc_string(tool) =~= seq!['{'] + ((enc_string(sv) + seq![':']) + (one + (
    key_text(tk) + enc_string(tool)))));
    lemma_at_split(s, 0, seq!['{'], (enc_string(sv) + seq![':']) + (one + (key_text(tk) + enc_string(tool))));
    lemma_at_index(s, 0, seq!['{'], 0);
    lemma_expect_at(s, 0, '{');
    lemma_at_split(s, 1, enc_string(sv) + seq![':'], one + (key_text(tk) + enc_string(tool)));
    lemma_key_at(s, 1, sv);
    let q2: int = enc_string(sv).len() + 2int;
    lemma_at_split(s, q2, one, key_text(tk) + enc_string(tool));
    lemma_at_split(s, q2 + 1, key_text(tk), enc_string(tool));
    lemma_at_index(s, q2 + 1, key_text(tk), 0);
    lemma_at_index(s, q2, one, 0);
    lemma_no_ws(s, q2);
    assert(one == int_text(1));
    lemma_int_text(1);
    lemma_number_at(s, q2, one);
    lemma_key_text_at(s, q2 + 1, tk);
    let q5: int = q2 + 1 + key_text(tk).len() as int;
    lemma_string_at(s, q5, tool);
}

/// The optional meta member reads back.
proof fn lemma_meta_member_at(s: Seq<char>, p: int, meta: Option<Seq<(Seq<char>, Meta)>>)
    requires
        meta matches Some(m) ==> object_typed(m),
        at(
            s,
            p,
            match meta {
                Some(m) => key_text(seq!['m', 'e', 't', 'a']) + enc_meta_object(m),
                None => Seq::empty(),
            } + seq!['}'],
        ),
    ensures
        meta_member(s, p) == Some(
            (
                meta,
                p + match meta {
                    Some(m) => key_text(seq!['m', 'e', 't', 'a']) + enc_meta_object(m),
                    None => Seq::<char>::empty(),
                }.len(),
            ),
        ),
{
    let mk = seq!['m', 'e', 't', 'a'];
    match meta {
        Some(m) => {
            lemma_plain_key(mk);
            let kt = key_text(mk);
            assert(kt + enc_meta_object(m) + seq!['}'] =~= kt + (enc_meta_object(m) + seq!['}']));
            lemma_at_split(s, p, kt, enc_meta_object(m) + seq!['}']);
            lemma_at_split(s, p + kt.len(), enc_meta_object(m), seq!['}']);
            lemma_key_text_at(s, p, mk);
            lemma_at_index(s, p, kt, 0);
            lemma_object_at(s, p + kt.len(), m);
        },
        None => {
            assert(Seq::<char>::empty() + seq!['}'] =~= seq!['}']);
            lemma_at_index(s, p, seq!['}'], 0);
        },
    }
}

/// The text of a record up to the end of its result.
pub open spec fn record_front(r: RecordV) -> Seq<char> {
    head_text() + enc_string(r.tool) + key_text(seq!['a', 'r', 'g', 's']) + enc_value(r.args)
        + key_text(seq!['r', 'e', 's', 'u', 'l', 't']) + enc_result(r.result)
}

/// The text of a record after its result.
pub open spec fn record_back(r: RecordV) -> Seq<char> {
    key_text(seq!['t', 'i', 'm', 'e', 's', 't', 'a', 'm', 'p']) + enc_string(r.timestamp)
        + key_text(seq!['c', 'a', 'l', 'l', 'e', 'r']) + enc_string(r.caller) + meta_text(r.meta)
        + seq!['}']
}

/// The text of the optional meta member.
pub open spec fn meta_text(meta: Option<Seq<(Seq<char>, Meta)>>) -> Seq<char> {
    match meta {
        Some(m) => key_text(seq!['m', 'e', 't', 'a']) + enc_meta_object(m),
        None => Seq::empty(),
    }
}

/// A record's line is its front followed by its back.
proof fn lemma_record_split(r: RecordV)
    ensures
        enc_record(r) == record_front(r) + record_back(r),
{
    assert(enc_record(r) =~= record_front(r) + record_back(r));
}

/// The arguments member of a record reads back, with the key of the
/// result member after it.
#[verifier::spinoff_prover]
proof fn lemma_args_at(s: Seq<char>, p1: int, args: Val, args_ty: TyV, adts: AdtMap)
    requires
        typed(args, args_ty, adts),
        at(
            s,
            p1,
            key_text(seq!['a', 'r', 'g', 's']) + (enc_value(args) + key_text(
                seq!['r', 'e', 's', 'u', 'l', 't'],
            )),
        ),
    ensures
        ({
            let p2 = p1 + key_text(seq!['a', 'r', 'g', 's']).len();
            let p3 = p2 + enc_value(args).len();
            let p4 = p3 + key_text(seq!['r', 'e', 's', 'u', 'l', 't']).len();
            &&& expect(s, p1, ',') == Some(p1 + 1)
            &&& key(s, p1 + 1, seq!['a', 'r', 'g', 's']) == Some(p2)
            &&& value(s, p2, args_ty, adts) == Some((args, p3))
            &&& expect(s, p3, ',') == Some(p3 + 1)
            &&& key(s, p3 + 1, seq!['r', 'e', 's', 'u', 'l', 't']) == Some(p4)
        }),
{
    let ak = seq!['a', 'r', 'g', 's'];
    let rk = seq!['r', 'e', 's', 'u', 'l', 't'];
    let k1 = key_text(ak);
    let v = enc_value(args);
    let k2 = key_text(rk);
    lemma_at_split(s, p1, k1, v + k2);
    lemma_key_text_at(s, p1, ak);
    let p2: int = p1 + k1.len();
    lemma_at_split(s, p2, v, k2);
    let p3: int = p2 + v.len();
    lemma_at_index(s, p3, k2, 0);
    lemma_value_at(s, p2, args, args_ty, adts);
    lemma_key_text_at(s, p3, rk);
}

/// The front of a record reads back: envelope, arguments and result.
#[verifier::spinoff_prover]
#[verifier::rlimit(60)]
proof fn lemma_record_front_at(s: Seq<char>, r: RecordV, args_ty: TyV, ok_ty: TyV, errs: Seq<TyV>, adts: AdtMap)
    requires
        typed(r.args, args_ty, adts),
        result_typed(r.result, ok_ty, errs, adts),
        at(s, 0, record_front(r)),
    ensures
        ({
            let p1 = (head_text() + enc_string(r.tool)).len() as int;
            let p2 = p1 + key_text(seq!['a', 'r', 'g', 's']).len();
            let p3 = p2 + enc_value(r.args).len();
            let p4 = p3 + key_text(seq!['r', 'e', 's', 'u', 'l', 't']).len();
            &&& envelope_tool(s, 0) == Some((r.tool, p1))
            &&& expect(s, p1, ',') == Some(p1 + 1)
            &&& key(s, p1 + 1, seq!['a', 'r', 'g', 's']) == Some(p2)
            &&& value(s, p2, args_ty, adts) == Some((r.args, p3))
            &&& expect(s, p3, ',') == Some(p3 + 1)
            &&& key(s, p3 + 1, seq!['r', 'e', 's', 'u', 'l', 't']) == Some(p4)
            &&& result(s, p4, ok_ty, errs, adts) == Some((r.result, record_front(r).len() as int))
        }),
{
    let a = head_text() + enc_string(r.tool);
    let mid = key_text(seq!['a', 'r', 'g', 's']) + (enc_value(r.args) + key_text(
        seq!['r', 'e', 's', 'u', 'l', 't'],
    ));
    let res = enc_result(r.result);
    assert(record_front(r) =~= a + (mid + res));
    lemma_at_split(s, 0, a, mid + res);
    lemma_envelope_at(s, r.tool);
    let p1: int = a.len() as int;
    lemma_at_split(s, p1, mid, res);
    lemma_args_at(s, p1, r.args, args_ty, adts);
    lemma_result_at(s, p1 + mid.len(), r.result, ok_ty, errs, adts);
}

/// The back of a record reads back: timestamp, caller, meta and the
/// closing brace.
#[verifier::spinoff_prover]
#[verifier::rlimit(60)]
proof fn lemma_record_back_at(s: Seq<char>, p: int, r: RecordV)
    requires
        r.meta matches Some(m) ==> object_typed(m),
        at(s, p, record_back(r)),
    ensures
        ({
            let p6 = p + key_text(seq!['t', 'i', 'm', 'e', 's', 't', 'a', 'm', 'p']).len();
            let p7 = p6 + enc_string(r.timestamp).len();
            let p8 = p7 + key_text(seq!['c', 'a', 'l', 'l', 'e', 'r']).len();
            let p9 = p8 + enc_string(r.caller).len();
            let p10 = p9 + meta_text(r.meta).len();
            &&& expect(s, p, ',') == Some(p + 1)
            &&& key(s, p + 1, seq!['t', 'i', 'm', 'e', 's', 't', 'a', 'm', 'p']) == Some(p6)
            &&& string(s, p6) == Some((r.timestamp, p7))
            &&& expect(s, p7, ',') == Some(p7 + 1)
            &&& key(s, p7 + 1, seq!['c', 'a', 'l', 'l', 'e', 'r']) == Some(p8)
            &&& string(s, p8) == Some((r.caller, p9))
            &&& meta_member(s, p9) == Some((r.meta, p10))
            &&& expect(s, p10, '}') == Some(p10 + 1)
            &&& p10 + 1 == p + record_back(r).len()
        }),
{
    let tk = seq!['t', 'i', 'm', 'e', 's', 't', 'a', 'm', 'p'];
    let ck = seq!['c', 'a', 'l', 'l', 'e', 'r'];
    let k3 = key_text(tk);
    let ts = enc_string(r.timestamp);
    let k4 = key_text(ck);
    let c = enc_string(r.caller);
    let m = meta_text(r.meta);
    let z = seq!['}'];
    assert(record_back(r) =~= k3 + (ts + (k4 + (c + (m + z)))));
    lemma_at_split(s, p, k3, ts + (k4 + (c + (m + z))));
    lemma_key_text_at(s, p, tk);
    let p6: int = p + k3.len();
    lemma_at_split(s, p6, ts, k4 + (c + (m + z)));
    lemma_string_at(s, p6, r.timestamp);
    let p7: int = p6 + ts.len();
    lemma_at_split(s, p7, k4, c + (m + z));
    lemma_key_text_at(s, p7, ck);
    let p8: int = p7 + k4.len();
    lemma_at_split(s, p8, c, m + z);
    lemma_string_at(s, p8, r.caller);
    let p9: int = p8 + c.len();
    lemma_meta_member_at(s, p9, r.meta);
    lemma_at_split(s, p9, m, z);
    lemma_at_index(s, p9 + m.len(), z, 0);
    lemma_expect_at(s, p9 + m.len(), '}');
}

/// A record whose parts are encodable is encodable.
proof fn lemma_record_typed_ok(r: RecordV, args_ty: TyV, ok_ty: TyV, errs: Seq<TyV>, adts: AdtMap)
    requires
        record_typed(r, args_ty, ok_ty, errs, adts),
    ensures
        record_ok(r),
{
    lemma_typed_ok(r.args, args_ty, adts);
    match r.result {
        ResultV::Success(v) => {
            lemma_typed_ok(v, ok_ty, adts);
        },
        ResultV::Failure(v) => {
            let k = choose|k: int|
                0 <= k < errs.len() && typed(v, #[trigger] errs[k], adts) && forall|j: int|
                    0 <= j < k ==> rejects(#[trigger] errs[j], v, adts);
            lemma_typed_ok(v, errs[k], adts);
        },
    }
    match r.meta {
        Some(m) => {
            lemma_meta_typed_ok(Meta::Object(m));
        },
        None => {},
    }
}

/// A record's canonical line decodes, under a signature it is typed by,
/// back to the record: what the audit sink writes, the log loader reads.
#[verifier::spinoff_prover]
#[verifier::rlimit(60)]
pub proof fn law_record_round_trip(r: RecordV, args_ty: TyV, ok_ty: TyV, errs: Seq<TyV>, adts: AdtMap)
    requires
        record_typed(r, args_ty, ok_ty, errs, adts),
    ensures
        record_ok(r),
        decode_record(enc_record(r), args_ty, ok_ty, errs, adts) == Some(r),
{
    lemma_record_typed_ok(r, args_ty, ok_ty, errs, adts);
    let s = enc_record(r);
    lemma_record_split(r);
    assert(s.subrange(0, s.len() as int) =~= s);
    lemma_at_split(s, 0, record_front(r), record_back(r));
    lemma_record_front_at(s, r, args_ty, ok_ty, errs, adts);
    lemma_record_back_at(s, record_front(r).len() as int, r);
    lemma_skip_ws(s, s.len() as int);
}

// ── canonical lines hold no line feed ──────────────────────────────

/// Whether `s` holds no line feed.
pub open spec fn nl_free(s: Seq<char>) -> bool {
    forall|i: int| 0 <= i < s.len() ==> s[i] != '\n'
}

/// Texts without line feeds concatenate to one.
proof fn lemma_nl_add(a: Seq<char>, b: Seq<char>)
    requires
        nl_free(a),
        nl_free(b),
    ensures
        nl_free(a + b),
{
    assert forall|i: int| 0 <= i < (a + b).len() implies (a + b)[i] != '\n' by {
        if i >= a.len() {
            assert((a + b)[i] == b[i - a.len()]);
        }
    }
}

/// An escaped string body holds no line feed.
proof fn lemma_esc_body_nl(s: Seq<char>)
    ensures
        nl_free(esc_body(s)),
    decreases s.len(),
{
    if s.len() > 0 {
        lemma_esc_body_nl(s.drop_last());
        let c = s.last();
        let e = esc_char(c);
        if (c as u32) < 0x20 && c != '"' && c != '\\' && c != '\u{8}' && c != '\u{c}' && c != '\n'
            && c != '\r' && c != '\t' {
            let h1 = hex_char((c as u32 / 16) as nat);
            let h2 = hex_char((c as u32 % 16) as nat);
            assert(h1 != '\n' && h2 != '\n');
        }
        assert(nl_free(e));
        lemma_nl_add(esc_body(s.drop_last()), e);
    }
}

/// A string literal holds no line feed.
pub proof fn lemma_string_nl(s: Seq<char>)
    ensures
        nl_free(enc_string(s)),
{
    lemma_esc_body_nl(s);
    lemma_nl_add(seq!['"'], esc_body(s));
    lemma_nl_add(seq!['"'] + esc_body(s), seq!['"']);
}

/// A decimal text holds no line feed.
proof fn lemma_nat_text_nl(n: nat)
    ensures
        nl_free(nat_text(n)),
    decreases n,
{
    if n >= 10 {
        lemma_nat_text_nl(n / 10);
        assert(digit_char(n % 10) != '\n');
        lemma_nl_add(nat_text(n / 10), seq![digit_char(n % 10)]);
        assert(nat_text(n / 10).push(digit_char(n % 10)) =~= nat_text(n / 10) + seq![digit_char(n % 10)]);
    } else {
        assert(digit_char(n) != '\n');
    }
}

/// The bracketed text of items without line feeds holds none.
proof fn lemma_brackets_nl(items: Seq<Val>)
    requires
        forall|i: int| 0 <= i < items.len() ==> nl_free(enc_value(#[trigger] items[i])),
    ensures
        nl_free(seq!['['] + enc_list(items) + seq![']']),
{
    lemma_list_nl(items);
    lemma_nl_add(seq!['['], enc_list(items));
    lemma_nl_add(seq!['['] + enc_list(items), seq![']']);
}

/// A canonical value text holds no line feed.
pub proof fn lemma_value_nl(v: Val, ty: TyV, adts: AdtMap)
    requires
        typed(v, ty, adts),
    ensures
        nl_free(enc_value(v)),
    decreases v, 1nat,
{
    match v {
        Val::Int(i) => {
            if i < 0 {
                lemma_nat_text_nl((-i) as nat);
                lemma_nl_add(seq!['-'], nat_text((-i) as nat));
            } else {
                lemma_nat_text_nl(i as nat);
            }
        },
        Val::Float(t) => {
            assert forall|k: int| 0 <= k < t.len() implies t[k] != '\n' by {
                assert(is_num_char(t[k]));
            }
        },
        Val::Str(t) => {
            lemma_string_nl(t);
        },
        Val::Unit => {},
        Val::Tuple(items) => {
            let es = strip(ty)->Tuple_0;
            assert forall|i: int| 0 <= i < items.len() implies nl_free(enc_value(#[trigger] items[i])) by {
                lemma_value_nl(items[i], es[i], adts);
            }
            lemma_brackets_nl(items);
        },
        Val::List(items) => {
            let args = strip(ty)->Con_1;
            assert forall|i: int| 0 <= i < items.len() implies nl_free(enc_value(#[trigger] items[i])) by {
                lemma_value_nl(items[i], args[0], adts);
            }
            lemma_brackets_nl(items);
        },
        Val::Record(fs) => {
            let tfs = strip(ty)->Record_0;
            assert forall|i: int| 0 <= i < fs.len() implies nl_free(enc_value(#[trigger] fs[i].1)) by {
                lemma_value_nl(fs[i].1, tfs[i].1, adts);
            }
            lemma_fields_nl(fs);
            lemma_nl_add(seq!['{'], enc_fields(fs));
            lemma_nl_add(seq!['{'] + enc_fields(fs), seq!['}']);
        },
        Val::Ctor(n, vs) => {
            let name = strip(ty)->Con_0;
            let args = strip(ty)->Con_1;
            let ctors = adts[name];
            let idx = find_ctor(ctors, n, 0)->Some_0;
            let ftys = subst_all(ctors[idx].1, args);
            assert forall|i: int| 0 <= i < vs.len() implies nl_free(enc_value(#[trigger] vs[i])) by {
                lemma_value_nl(vs[i], ftys[i], adts);
            }
            lemma_list_nl(vs);
            lemma_string_nl(n);
            let a = seq!['{', '"', 'c', 't', 'o', 'r', '"', ':'];
            let b = seq![',', '"', 'a', 'r', 'g', 's', '"', ':', '['];
            lemma_nl_add(a, enc_string(n));
            lemma_nl_add(a + enc_string(n), b);
            lemma_nl_add(a + enc_string(n) + b, enc_list(vs));
            lemma_nl_add(a + enc_string(n) + b + enc_list(vs), seq![']', '}']);
        },
    }
}

/// Items without line feeds join without one.
proof fn lemma_list_nl(items: Seq<Val>)
    requires
        forall|i: int| 0 <= i < items.len() ==> nl_free(enc_value(#[trigger] items[i])),
    ensures
        nl_free(enc_list(items)),
    decreases items.len(),
{
    if items.len() > 1 {
        let d = items.drop_last();
        assert forall|i: int| 0 <= i < d.len() implies nl_free(enc_value(#[trigger] d[i])) by {
            assert(d[i] == items[i]);
        }
        lemma_list_nl(d);
        assert(nl_free(enc_value(items[items.len() - 1])));
        lemma_nl_add(enc_list(d), seq![',']);
        lemma_nl_add(enc_list(d) + seq![','], enc_value(items.last()));
    } else if items.len() == 1 {
        assert(nl_free(enc_value(items[0])));
    }
}

/// Fields without line feeds join without one.
proof fn lemma_fields_nl(fs: Seq<(Seq<char>, Val)>)
    requires
        forall|i: int| 0 <= i < fs.len() ==> nl_free(enc_value(#[trigger] fs[i].1)),
    ensures
        nl_free(enc_fields(fs)),
    decreases fs.len(),
{
    if fs.len() > 0 {
        let k = fs.len() - 1;
        lemma_string_nl(fs[k].0);
        assert(nl_free(enc_value(fs[k].1)));
        lemma_nl_add(enc_string(fs[k].0), seq![':']);
        lemma_nl_add(enc_string(fs[k].0) + seq![':'], enc_value(fs[k].1));
        if fs.len() > 1 {
            let d = fs.drop_last();
            assert forall|i: int| 0 <= i < d.len() implies nl_free(enc_value(#[trigger] d[i].1)) by {
                assert(d[i] == fs[i]);
            }
            lemma_fields_nl(d);
            lemma_nl_add(enc_fields(d), seq![',']);
            lemma_nl_add(enc_fields(d) + seq![','], enc_string(fs[k].0) + seq![':'] + enc_value(fs[k].1));
            assert(enc_fields(fs) =~= enc_fields(d) + seq![','] + (enc_string(fs[k].0) + seq![':'] + enc_value(fs[k].1)));
        }
    }
}

/// A canonical meta text holds no line feed.
proof fn lemma_meta_nl(m: Meta)
    requires
        meta_typed(m),
    ensures
        nl_free(enc_meta(m)),
    decreases m, 1nat,
{
    match m {
        Meta::Int(i) => {
            if i < 0 {
                lemma_nat_text_nl((-i) as nat);
                lemma_nl_add(seq!['-'], nat_text((-i) as nat));
            } else {
                lemma_nat_text_nl(i as nat);
            }
        },
        Meta::Float(t) => {
            assert forall|k: int| 0 <= k < t.len() implies t[k] != '\n' by {
                assert(is_num_char(t[k]));
            }
        },
        Meta::Str(t) => {
            lemma_string_nl(t);
        },
        Meta::Array(items) => {
            assert forall|i: int| 0 <= i < items.len() implies nl_free(enc_meta(#[trigger] items[i])) by {
                lemma_meta_nl(items[i]);
            }
            lemma_metas_nl(items);
            lemma_nl_add(seq!['['], enc_metas(items));
            lemma_nl_add(seq!['['] + enc_metas(items), seq![']']);
        },
        Meta::Object(fs) => {
            lemma_object_nl(fs);
        },
        _ => {},
    }
}

/// Meta items without line feeds join without one.
proof fn lemma_metas_nl(items: Seq<Meta>)
    requires
        forall|i: int| 0 <= i < items.len() ==> nl_free(enc_meta(#[trigger] items[i])),
    ensures
        nl_free(enc_metas(items)),
    decreases items.len(),
{
    if items.len() > 1 {
        let d = items.drop_last();
        assert forall|i: int| 0 <= i < d.len() implies nl_free(enc_meta(#[trigger] d[i])) by {
            assert(d[i] == items[i]);
        }
        lemma_metas_nl(d);
        assert(nl_free(enc_meta(items[items.len() - 1])));
        lemma_nl_add(enc_metas(d), seq![',']);
        lemma_nl_add(enc_metas(d) + seq![','], enc_meta(items.last()));
    } else if items.len() == 1 {
        assert(nl_free(enc_meta(items[0])));
    }
}

/// A canonical meta object holds no line feed.
proof fn lemma_object_nl(fs: Seq<(Seq<char>, Meta)>)
    requires
        object_typed(fs),
    ensures
        nl_free(enc_meta_object(fs)),
    decreases fs, 1nat,
{
    assert forall|i: int| 0 <= i < fs.len() implies nl_free(enc_meta(#[trigger] fs[i].1)) by {
        lemma_meta_nl(fs[i].1);
    }
    lemma_meta_fields_nl(fs);
    lemma_nl_add(seq!['{'], enc_meta_fields(fs));
    lemma_nl_add(seq!['{'] + enc_meta_fields(fs), seq!['}']);
}

/// Meta entries without line feeds join without one.
proof fn lemma_meta_fields_nl(fs: Seq<(Seq<char>, Meta)>)
    requires
        forall|i: int| 0 <= i < fs.len() ==> nl_free(enc_meta(#[trigger] fs[i].1)),
    ensures
        nl_free(enc_meta_fields(fs)),
    decreases fs.len(),
{
    if fs.len() > 0 {
        let k = fs.len() - 1;
        lemma_string_nl(fs[k].0);
        assert(nl_free(enc_meta(fs[k].1)));
        lemma_nl_add(enc_string(fs[k].0), seq![':']);
        lemma_nl_add(enc_string(fs[k].0) + seq![':'], enc_meta(fs[k].1));
        if fs.len() > 1 {
            let d = fs.drop_last();
            assert forall|i: int| 0 <= i < d.len() implies nl_free(enc_meta(#[trigger] d[i].1)) by {
                assert(d[i] == fs[i]);
            }
            lemma_meta_fields_nl(d);
            lemma_nl_add(enc_meta_fields(d), seq![',']);
            lemma_nl_add(enc_meta_fields(d) + seq![','], enc_string(fs[k].0) + seq![':'] + enc_meta(fs[k].1));
            assert(enc_meta_fields(fs) =~= enc_meta_fields(d) + seq![','] + (enc_string(fs[k].0) + seq![':']
                + enc_meta(fs[k].1)));
        }
    }
}

/// The canonical line of a typed record holds no line feed and ends with
/// its closing brace.
pub proof fn lemma_record_nl(r: RecordV, args_ty: TyV, ok_ty: TyV, errs: Seq<TyV>, adts: AdtMap)
    requires
        record_typed(r, args_ty, ok_ty, errs, adts),
    ensures
        nl_free(enc_record(r)),
        enc_record(r).len() > 0,
        enc_record(r).last() == '}',
{
    lemma_record_split(r);
    let front = record_front(r);
    let back = record_back(r);
    lemma_value_nl(r.args, args_ty, adts);
    match r.result {
        ResultV::Success(v) => {
            lemma_value_nl(v, ok_ty, adts);
        },
        ResultV::Failure(v) => {
            let k = choose|k: int|
                0 <= k < errs.len() && typed(v, #[trigger] errs[k], adts) && forall|j: int|
                    0 <= j < k ==> rejects(#[trigger] errs[j], v, adts);
            lemma_value_nl(v, errs[k], adts);
        },
    }
    let v = result_val(r.result);
    let tag = match r.result {
        ResultV::Success(_) => seq!['{', '"', 'o', 'k', '"', ':'],
        ResultV::Failure(_) => seq!['{', '"', 'e', 'r', 'r', '"', ':'],
    };
    assert(enc_result(r.result) == tag + enc_value(v) + seq!['}']);
    lemma_nl_add(tag, enc_value(v));
    lemma_nl_add(tag + enc_value(v), seq!['}']);
    lemma_string_nl(r.tool);
    lemma_string_nl(r.timestamp);
    lemma_string_nl(r.caller);
    let ka = key_text(seq!['a', 'r', 'g', 's']);
    let kr = key_text(seq!['r', 'e', 's', 'u', 'l', 't']);
    let kt = key_text(seq!['t', 'i', 'm', 'e', 's', 't', 'a', 'm', 'p']);
    let kc = key_text(seq!['c', 'a', 'l', 'l', 'e', 'r']);
    let km = key_text(seq!['m', 'e', 't', 'a']);
    assert(nl_free(head_text()));
    assert(nl_free(ka));
    assert(nl_free(kr));
    assert(nl_free(kt));
    assert(nl_free(kc));
    assert(nl_free(km));
    lemma_nl_add(head_text(), enc_string(r.tool));
    lemma_nl_add(head_text() + enc_string(r.tool), ka);
    lemma_nl_add(head_text() + enc_string(r.tool) + ka, enc_value(r.args));
    lemma_nl_add(head_text() + enc_string(r.tool) + ka + enc_value(r.args), kr);
    lemma_nl_add(head_text() + enc_string(r.tool) + ka + enc_value(r.args) + kr, enc_result(r.result));
    assert(nl_free(front));
    match r.meta {
        Some(m) => {
            lemma_object_nl(m);
            lemma_nl_add(km, enc_meta_object(m));
        },
        None => {},
    }
    lemma_nl_add(kt, enc_string(r.timestamp));
    lemma_nl_add(kt + enc_string(r.timestamp), kc);
    lemma_nl_add(kt + enc_string(r.timestamp) + kc, enc_string(r.caller));
    lemma_nl_add(kt + enc_string(r.timestamp) + kc + enc_string(r.caller), meta_text(r.meta));
    lemma_nl_add(kt + enc_string(r.timestamp) + kc + enc_string(r.caller) + meta_text(r.meta), seq!['}']);
    assert(nl_free(back));
    lemma_nl_add(front, back);
    assert(back.last() == '}');
    assert((front + back).last() == '}');
}

/// A record's line starts with the envelope that names its tool.
#[verifier::spinoff_prover]
pub proof fn lemma_record_envelope(r: RecordV)
    ensures
        envelope_tool(enc_record(r), 0) == Some((r.tool, (head_text() + enc_string(r.tool)).len() as int)),
{
    let s = enc_record(r);
    let a = head_text() + enc_string(r.tool);
    lemma_record_split(r);
    assert(record_front(r).subrange(0, a.len() as int) =~= a);
    assert(s.subrange(0, a.len() as int) =~= record_front(r).subrange(0, a.len() as int));
    assert(at(s, 0, a));
    lemma_envelope_at(s, r.tool);
}

} // verus!
