//! The computations of the benchmark driver: source ids, timing
//! summaries, boot counts read from the shim log, shell quoting, and the
//! peak resident set size read from a process status text.
use vstd::prelude::*;

use crate::wire::encode::{digit_val, is_digit};
use crate::wire::grammar::{all_digits, digits_val};
use crate::replay::{lines_from, next_line};
use crate::wire::text::{chars_of, nat_text, push_char, write_nat};

verus! {

/// The `u32` source id of module index `i`: the index itself, or
/// `u32::MAX` when it does not fit.
pub fn source_id(i: usize) -> (r: u32)
    ensures
        r == if i <= u32::MAX {
            i as u32
        } else {
            u32::MAX
        },
{
    if i <= u32::MAX as usize {
        i as u32
    } else {
        u32::MAX
    }
}

// ── lines ──────────────────────────────────────────────────────────

/// The views of character vectors.
pub open spec fn lines_v(s: Seq<Vec<char>>) -> Seq<Seq<char>> {
    Seq::new(s.len(), |i: int| s[i]@)
}

/// The lines of `text`, as `str::lines` gives them.
pub fn split_lines(text: &str) -> (r: Vec<Vec<char>>)
    ensures
        lines_v(r@) == lines_from(text@, 0),
{
    let s = chars_of(text);
    let mut out: Vec<Vec<char>> = Vec::new();
    let mut p: usize = 0;
    proof {
        assert(lines_v(out@) + lines_from(s@, 0) =~= lines_from(s@, 0));
    }
    loop
        invariant
            s@ == text@,
            p <= s@.len(),
            lines_from(s@, 0) == lines_v(out@) + lines_from(s@, p as int),
        decreases s@.len() - p,
    {
        if p >= s.len() {
            proof {
                assert(lines_from(s@, p as int) =~= Seq::<Seq<char>>::empty());
                assert(lines_v(out@) + Seq::<Seq<char>>::empty() =~= lines_v(out@));
            }
            return out;
        }
        let (line, next) = next_line(&s, p);
        let ghost before = lines_v(out@);
        let chars = chars_of(line.as_str());
        out.push(chars);
        proof {
            assert(lines_v(out@) =~= before.push(line@));
            assert(before.push(line@) + lines_from(s@, next as int) =~= before + (seq![line@] + lines_from(
                s@,
                next as int,
            )));
        }
        p = next;
    }
}

/// Whether two character slices are equal.
fn same(a: &[char], b: &[char]) -> (r: bool)
    ensures
        r == (a@ == b@),
{
    if a.len() != b.len() {
        return false;
    }
    let mut i: usize = 0;
    while i < a.len()
        invariant
            i <= a@.len(),
            a@.len() == b@.len(),
            forall|k: int| 0 <= k < i ==> a@[k] == b@[k],
        decreases a@.len() - i,
    {
        if a[i] != b[i] {
            return false;
        }
        i = i + 1;
    }
    assert(a@ =~= b@);
    true
}

// ── boots ──────────────────────────────────────────────────────────

/// Emulators one command started.
#[derive(Clone, Copy, Debug, PartialEq, Eq)]
pub struct Boots {
    /// `erlc` invocations (one emulator each).
    pub erlc: usize,
    /// `erl` invocations.
    pub erl: usize,
}

/// How many of `lines` are `x`.
pub open spec fn count_eq(lines: Seq<Seq<char>>, x: Seq<char>) -> nat
    decreases lines.len(),
{
    if lines.len() == 0 {
        0
    } else {
        count_eq(lines.drop_last(), x) + if lines.last() == x {
            1nat
        } else {
            0nat
        }
    }
}

/// A count of lines is at most the number of lines.
proof fn lemma_count_eq_bound(lines: Seq<Seq<char>>, x: Seq<char>)
    ensures
        count_eq(lines, x) <= lines.len(),
    decreases lines.len(),
{
    if lines.len() > 0 {
        lemma_count_eq_bound(lines.drop_last(), x);
    }
}

/// The boots the shim log records: one line `erlc` or `erl` per emulator.
pub fn count_boots(log: &str) -> (r: Boots)
    ensures
        r.erlc == count_eq(lines_from(log@, 0), seq!['e', 'r', 'l', 'c']),
        r.erl == count_eq(lines_from(log@, 0), seq!['e', 'r', 'l']),
{
    let lines = split_lines(log);
    let ghost lv = lines_v(lines@);
    let erlc_name: [char; 4] = ['e', 'r', 'l', 'c'];
    let erl_name: [char; 3] = ['e', 'r', 'l'];
    let mut erlc: usize = 0;
    let mut erl: usize = 0;
    let mut i: usize = 0;
    proof {
        assert(lv.take(0) =~= Seq::<Seq<char>>::empty());
    }
    while i < lines.len()
        invariant
            i <= lines@.len(),
            lv == lines_v(lines@),
            erlc_name@ == seq!['e', 'r', 'l', 'c'],
            erl_name@ == seq!['e', 'r', 'l'],
            erlc == count_eq(lv.take(i as int), seq!['e', 'r', 'l', 'c']),
            erl == count_eq(lv.take(i as int), seq!['e', 'r', 'l']),
        decreases lines@.len() - i,
    {
        proof {
            assert(lv.take(i + 1).drop_last() =~= lv.take(i as int));
            assert(lv.take(i + 1).last() == lines@[i as int]@);
            lemma_count_eq_bound(lv.take(i as int), seq!['e', 'r', 'l', 'c']);
            lemma_count_eq_bound(lv.take(i as int), seq!['e', 'r', 'l']);
        }
        if same(lines[i].as_slice(), erlc_name.as_slice()) {
            erlc = erlc + 1;
        }
        if same(lines[i].as_slice(), erl_name.as_slice()) {
            erl = erl + 1;
        }
        i = i + 1;
    }
    proof {
        assert(lv.take(lines@.len() as int) =~= lv);
    }
    Boots { erlc, erl }
}

/// The text of a boot count: `0`, or `<total> (<erlc> erlc, <erl> erl)`.
pub open spec fn boot_count_text(erlc: nat, erl: nat) -> Seq<char> {
    if erlc == 0 && erl == 0 {
        "0"@
    } else {
        nat_text(erlc + erl) + " ("@ + nat_text(erlc) + " erlc, "@ + nat_text(erl) + " erl)"@
    }
}

/// `<total> (<erlc> erlc, <erl> erl)`, or `0`.
pub fn boot_count(boots: Boots) -> (r: String)
    requires
        boots.erlc + boots.erl <= u64::MAX,
    ensures
        r@ == boot_count_text(boots.erlc as nat, boots.erl as nat),
{
    let mut out = String::new();
    if boots.erlc == 0 && boots.erl == 0 {
        out.append("0");
        proof {
            assert(Seq::<char>::empty() + "0"@ =~= "0"@);
        }
        return out;
    }
    write_nat(&mut out, boots.erlc as u64 + boots.erl as u64);
    out.append(" (");
    write_nat(&mut out, boots.erlc as u64);
    out.append(" erlc, ");
    write_nat(&mut out, boots.erl as u64);
    out.append(" erl)");
    proof {
        assert(Seq::<char>::empty() + nat_text((boots.erlc + boots.erl) as nat) =~= nat_text((boots.erlc + boots.erl) as nat));
    }
    out
}

// ── shell quoting ──────────────────────────────────────────────────

/// The body of a single-quoted `sh` word: each `'` becomes `'\''`.
pub open spec fn sh_body(s: Seq<char>) -> Seq<char>
    decreases s.len(),
{
    if s.len() == 0 {
        Seq::empty()
    } else {
        sh_body(s.drop_last()) + if s.last() == '\'' {
            seq!['\'', '\\', '\'', '\'']
        } else {
            seq![s.last()]
        }
    }
}

/// `text` single-quoted for `sh`.
pub fn sh_quote(text: &str) -> (r: String)
    ensures
        r@ == seq!['\''] + sh_body(text@) + seq!['\''],
{
    let mut out = String::new();
    push_char(&mut out, '\'');
    proof {
        assert(text@.take(0) =~= Seq::<char>::empty());
        assert(out@ =~= seq!['\''] + sh_body(text@.take(0)));
    }
    for c in it: text.chars()
        invariant
            it.seq() == text@,
            out@ == seq!['\''] + sh_body(text@.take(it.index() as int)),
    {
        let ghost k = it.index() as int;
        let ghost before = out@;
        if c == '\'' {
            push_char(&mut out, '\'');
            push_char(&mut out, '\\');
            push_char(&mut out, '\'');
            push_char(&mut out, '\'');
        } else {
            push_char(&mut out, c);
        }
        proof {
            assert(text@.take(k + 1).drop_last() =~= text@.take(k));
            assert(text@.take(k + 1).last() == c);
            assert(out@ =~= seq!['\''] + sh_body(text@.take(k + 1)));
        }
    }
    push_char(&mut out, '\'');
    proof {
        assert(text@.take(text@.len() as int) =~= text@);
    }
    out
}

// ── timing summaries ───────────────────────────────────────────────

/// Whether `s` is in non-decreasing order.
pub open spec fn nondecreasing(s: Seq<u128>) -> bool {
    forall|i: int, j: int| 0 <= i <= j < s.len() ==> s[i] <= s[j]
}

/// The median of sorted samples: the middle one, or the mean of the two
/// middle ones, rounded down.
pub open spec fn median_of(s: Seq<u128>) -> int {
    let n = s.len() as int;
    if n % 2 == 1 {
        s[n / 2] as int
    } else {
        (s[n / 2 - 1] + s[n / 2]) / 2
    }
}

/// The median, fastest and slowest of a set of timings.
#[derive(Clone, Copy, Debug, PartialEq, Eq)]
pub struct Summary {
    /// The median.
    pub median: u128,
    /// The fastest.
    pub min: u128,
    /// The slowest.
    pub max: u128,
}

/// Summarises timings in nanoseconds: their median, minimum and maximum,
/// read off a sorted copy.
pub fn summarize(times: &[u128]) -> (r: Summary)
    requires
        times@.len() > 0,
        forall|i: int| 0 <= i < times@.len() ==> #[trigger] times@[i] < 0x1_0000_0000_0000_0000_0000_0000u128,
    ensures
        exists|s: Seq<u128>|
            nondecreasing(s) && #[trigger] s.to_multiset() == times@.to_multiset() && r.median == median_of(s)
                && r.min == s[0] && r.max == s.last(),
        forall|i: int| 0 <= i < times@.len() ==> r.min <= #[trigger] times@[i] <= r.max,
{
    let mut sorted: Vec<u128> = Vec::new();
    let mut i: usize = 0;
    proof {
        assert(times@.take(0) =~= Seq::<u128>::empty());
    }
    while i < times.len()
        invariant
            i <= times@.len(),
            nondecreasing(sorted@),
            sorted@.to_multiset() == times@.take(i as int).to_multiset(),
            sorted@.len() == i,
            forall|k: int| 0 <= k < sorted@.len() ==> sorted@[k] < 0x1_0000_0000_0000_0000_0000_0000u128,
            forall|k: int| 0 <= k < times@.len() ==> #[trigger] times@[k] < 0x1_0000_0000_0000_0000_0000_0000u128,
        decreases times@.len() - i,
    {
        let x = times[i];
        let mut p: usize = 0;
        while p < sorted.len() && sorted[p] <= x
            invariant
                p <= sorted@.len(),
                forall|q: int| 0 <= q < p ==> sorted@[q] <= x,
            decreases sorted@.len() - p,
        {
            p = p + 1;
        }
        let ghost o = sorted@;
        sorted.insert(p, x);
        proof {
            assert(sorted@ =~= o.insert(p as int, x));
            o.insert_ensures(p as int, x);
            assert(times@.take(i + 1) =~= times@.take(i as int).push(x));
            vstd::seq_lib::to_multiset_insert(o, p as int, x);
            vstd::seq_lib::to_multiset_build(times@.take(i as int), x);
            assert forall|a: int, b: int| 0 <= a <= b < sorted@.len() implies sorted@[a] <= sorted@[b] by {
                if b < p {
                } else if a < p && b == p {
                } else if a < p {
                    assert(o[a] <= o[b - 1]);
                } else if a == p {
                    if b > p {
                        assert(!(o[p as int] <= x) || p == o.len());
                    }
                } else {
                    assert(o[a - 1] <= o[b - 1]);
                }
            }
        }
        i = i + 1;
    }
    proof {
        assert(times@.take(times@.len() as int) =~= times@);
    }
    let n = sorted.len();
    let median = if n % 2 == 1 {
        sorted[n / 2]
    } else {
        (sorted[n / 2 - 1] + sorted[n / 2]) / 2
    };
    let r = Summary { median, min: sorted[0], max: sorted[n - 1] };
    proof {
        let s = sorted@;
        assert(s.to_multiset() == times@.to_multiset());
        assert forall|i: int| 0 <= i < times@.len() implies r.min <= #[trigger] times@[i] <= r.max by {
            assert(times@.contains(times@[i]));
            vstd::seq_lib::to_multiset_contains(times@, times@[i]);
            vstd::seq_lib::to_multiset_contains(s, times@[i]);
            assert(s.contains(times@[i]));
            let k = choose|k: int| 0 <= k < s.len() && s[k] == times@[i];
            assert(s[0] <= s[k]);
            assert(s[k] <= s[s.len() - 1]);
        }
    }
    r
}

// ── peak resident set size ─────────────────────────────────────────

/// Whether `c` has the Unicode `White_Space` property.
pub open spec fn white_space(c: char) -> bool {
    ('\u{9}' <= c <= '\u{d}') || c == ' ' || c == '\u{85}' || c == '\u{a0}' || c == '\u{1680}' || (
    '\u{2000}' <= c <= '\u{200a}') || c == '\u{2028}' || c == '\u{2029}' || c == '\u{202f}' || c
        == '\u{205f}' || c == '\u{3000}'
}

/// Whether `c` has the Unicode `White_Space` property.
pub fn is_white_space(c: char) -> (r: bool)
    ensures
        r == white_space(c),
{
    ('\u{9}' <= c && c <= '\u{d}') || c == ' ' || c == '\u{85}' || c == '\u{a0}' || c == '\u{1680}' || (
    '\u{2000}' <= c && c <= '\u{200a}') || c == '\u{2028}' || c == '\u{2029}' || c == '\u{202f}' || c
        == '\u{205f}' || c == '\u{3000}'
}

/// `s` without leading and trailing white space.
pub open spec fn trim(s: Seq<char>) -> Seq<char> {
    let a = lead_ws(s, 0);
    let b = trail_ws(s, s.len() as int, a);
    s.subrange(a, b)
}

/// The index of the first non-white-space character at or after `i`
/// (the length when there is none).
pub open spec fn lead_ws(s: Seq<char>, i: int) -> int
    decreases s.len() - i,
{
    if 0 <= i < s.len() && white_space(s[i]) {
        lead_ws(s, i + 1)
    } else {
        i
    }
}

/// The end of `s` with the white space before `j` (and after `a`) removed.
pub open spec fn trail_ws(s: Seq<char>, j: int, a: int) -> int
    decreases j - a,
{
    if a < j && j <= s.len() && white_space(s[j - 1]) {
        trail_ws(s, j - 1, a)
    } else {
        j
    }
}

/// A `u64` parsed from text: an optional `+`, then at least one decimal
/// digit, the value fitting in 64 bits.
pub open spec fn parse_u64(s: Seq<char>) -> Option<u64> {
    let d = if s.len() > 0 && s[0] == '+' {
        s.drop_first()
    } else {
        s
    };
    if d.len() > 0 && all_digits(d) && digits_val(d) <= u64::MAX {
        Some(digits_val(d) as u64)
    } else {
        None
    }
}

/// The peak resident set size that a process status text reports, in
/// bytes: the first line starting `VmHWM:` holds it in kB.
pub open spec fn peak_from_status(status: Seq<char>) -> Option<u64> {
    let lines = lines_from(status, 0);
    match hwm_line(lines, 0) {
        Some(k) => {
            let rest = trim(lines[k].skip(6));
            if rest.len() >= 2 && rest[rest.len() - 2] == 'k' && rest[rest.len() - 1] == 'B' {
                match parse_u64(trim(rest.take(rest.len() - 2))) {
                    Some(kib) => Some(((kib as int * 1024) % 0x1_0000_0000_0000_0000) as u64),
                    None => None,
                }
            } else {
                None
            }
        },
        None => None,
    }
}

/// The index of the first line at or after `k` that starts `VmHWM:`.
pub open spec fn hwm_line(lines: Seq<Seq<char>>, k: int) -> Option<int>
    decreases lines.len() - k,
{
    if 0 <= k < lines.len() {
        if lines[k].len() >= 6 && lines[k].take(6) == seq!['V', 'm', 'H', 'W', 'M', ':'] {
            Some(k)
        } else {
            hwm_line(lines, k + 1)
        }
    } else {
        None
    }
}

/// The bounds of `s` trimmed.
fn trim_bounds(s: &[char]) -> (r: (usize, usize))
    ensures
        r.0 == lead_ws(s@, 0),
        r.1 == trail_ws(s@, s@.len() as int, r.0 as int),
        r.0 <= r.1 <= s@.len(),
{
    let mut a: usize = 0;
    while a < s.len() && is_white_space(s[a])
        invariant
            a <= s@.len(),
            lead_ws(s@, 0) == lead_ws(s@, a as int),
        decreases s@.len() - a,
    {
        a = a + 1;
    }
    let mut b: usize = s.len();
    while a < b && is_white_space(s[b - 1])
        invariant
            a <= b <= s@.len(),
            trail_ws(s@, s@.len() as int, a as int) == trail_ws(s@, b as int, a as int),
        decreases b - a,
    {
        b = b - 1;
    }
    (a, b)
}

/// Digits that already exceed a bound keep exceeding it as digits are
/// appended.
proof fn lemma_digits_grow(d: Seq<char>, k: int)
    requires
        0 <= k <= d.len(),
        forall|i: int| 0 <= i < d.len() ==> is_digit(#[trigger] d[i]),
    ensures
        digits_val(d.take(k)) <= digits_val(d),
    decreases d.len() - k,
{
    if k < d.len() {
        lemma_digits_grow(d, k + 1);
        assert(d.take(k + 1).drop_last() =~= d.take(k));
        assert(d.take(k + 1).last() == d[k]);
        assert(digits_val(d.take(k + 1)) == digits_val(d.take(k)) * 10 + digit_val(d[k]) as nat);
    } else {
        assert(d.take(k) =~= d);
    }
}

/// Parses a `u64` from `s`.
pub(crate) fn parse_u64_exec(s: &[char]) -> (r: Option<u64>)
    ensures
        r == parse_u64(s@),
{
    let start: usize = if s.len() > 0 && s[0] == '+' { 1 } else { 0 };
    let ghost d = if s@.len() > 0 && s@[0] == '+' {
        s@.drop_first()
    } else {
        s@
    };
    proof {
        assert(d =~= s@.skip(start as int));
    }
    if start >= s.len() {
        return None;
    }
    let mut v: u128 = 0;
    let mut i: usize = start;
    proof {
        assert(d.take(0) =~= Seq::<char>::empty());
    }
    while i < s.len()
        invariant
            start <= i <= s@.len(),
            d == s@.skip(start as int),
            d == (if s@.len() > 0 && s@[0] == '+' {
                s@.drop_first()
            } else {
                s@
            }),
            d.len() > 0,
            forall|k: int| 0 <= k < i - start ==> is_digit(#[trigger] d[k]),
            v as int == digits_val(d.take(i - start)),
            v <= u64::MAX,
        decreases s@.len() - i,
    {
        let c = s[i];
        proof {
            assert(d[i - start] == s@[i as int]);
            assert(d.len() == s@.len() - start);
        }
        if !('0' <= c && c <= '9') {
            proof {
                let k0 = i - start;
                assert(0 <= k0 < d.len());
                assert(d[k0] == c);
                assert(!is_digit(d[k0]));
                assert(!all_digits(d));
            }
            return None;
        }
        let dv = (c as u32 - '0' as u32) as u128;
        proof {
            assert(d.take(i - start + 1).drop_last() =~= d.take(i - start));
            assert(d[i - start] == c);
        }
        v = v * 10 + dv;
        proof {
            assert(dv as int == digit_val(c));
        }
        if v > u64::MAX as u128 {
            proof {
                if all_digits(d) {
                    lemma_digits_grow(d, i - start + 1);
                }
            }
            return None;
        }
        i = i + 1;
    }
    proof {
        assert(d.take(i - start) =~= d);
    }
    Some(v as u64)
}

/// Peak RSS in bytes from the text of `/proc/self/status`: the `VmHWM:`
/// line's kB count times 1024, wrapping at 64 bits.
pub fn peak_bytes(status: &str) -> (r: Option<u64>)
    ensures
        r == peak_from_status(status@),
{
    let lines = split_lines(status);
    let ghost lv = lines_v(lines@);
    let prefix: [char; 6] = ['V', 'm', 'H', 'W', 'M', ':'];
    let mut k: usize = 0;
    while k < lines.len()
        invariant
            k <= lines@.len(),
            lv == lines_v(lines@),
            lv == lines_from(status@, 0),
            prefix@ == seq!['V', 'm', 'H', 'W', 'M', ':'],
            hwm_line(lv, 0) == hwm_line(lv, k as int),
        decreases lines@.len() - k,
    {
        let line = &lines[k];
        proof {
            assert(lv[k as int] == line@);
        }
        let matched = if line.len() >= 6 {
            let head = line.as_slice().split_at(6).0;
            proof {
                assert(head@ =~= line@.take(6));
            }
            same(head, prefix.as_slice())
        } else {
            false
        };
        if matched {
            proof {
                assert(hwm_line(lv, k as int) == Some(k as int));
            }
            let after = line.as_slice().split_at(6).1;
            proof {
                assert(after@ == line@.skip(6));
            }
            let (a, b) = trim_bounds(after);
            let rest = after.split_at(b).0.split_at(a).1;
            proof {
                assert(rest@ =~= trim(line@.skip(6)));
            }
            let n = rest.len();
            if n >= 2 && rest[n - 2] == 'k' && rest[n - 1] == 'B' {
                let num = rest.split_at(n - 2).0;
                proof {
                    assert(num@ =~= rest@.take(n - 2));
                }
                let (a2, b2) = trim_bounds(num);
                let digits = num.split_at(b2).0.split_at(a2).1;
                proof {
                    assert(digits@ =~= trim(num@));
                }
                return match parse_u64_exec(digits) {
                    Some(kib) => Some(kib.wrapping_mul(1024)),
                    None => None,
                };
            } else {
                return None;
            }
        }
        k = k + 1;
    }
    None
}

} // verus!
