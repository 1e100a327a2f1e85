//! Log-file replay: loading a recorded audit log and driving
//! strict-sequential replay across a whole run.
//!
//! [`ToolTable`] collects the wire signatures of a program's tools,
//! [`load_log`] decodes a JSON-lines log type-directedly against them, and
//! [`ReplayCursor`] matches a program's tool calls against the decoded
//! records in order, returning each logged result. A mismatch surfaces as a
//! [`DivergenceReport`]: the structural [`Divergence`] enriched with the
//! log's extent, the expected record with its caller, and the offered call.
use vstd::prelude::*;

use crate::wire::decode::{byte_offset_of, decode_record, envelope_fail, peek_tool, record_fail, DecodeError};
use crate::wire::encode::{enc_value, encode_value, val_ok, val_wf, JsonLinesSink};
use crate::wire::encode::enc_record;
use crate::wire::grammar;
use crate::wire::laws::{law_record_round_trip, lemma_record_envelope, lemma_record_nl, nl_free, record_typed};
use crate::wire::replay::{records_v, replay, replay_spec, Divergence, DivergenceV};
use crate::wire::schema::{chars_eq, ToolWireSig};
use crate::wire::text::{chars_of, int_text, nat_text, push_char, push_chars, write_int, write_nat};
use crate::wire::value::{fields_v, lemma_fields_v, lemma_vals_v, vals_v, tys_v, InvocationRecord, RecordV, ResultV, ToolResult, TyV, Val, WireValue};

verus! {

// ── loading ─────────────────────────────────────────────────────

/// The view of a tool signature: args, result and error types.
pub type SigV = (TyV, TyV, Seq<TyV>);

/// The view of a signature.
pub open spec fn sig_v(sig: ToolWireSig) -> SigV {
    (sig.args@, sig.result@, tys_v(sig.errors@))
}

/// The map of a table's entries; a later entry for a name replaces an
/// earlier one.
pub open spec fn tool_map(e: Seq<(String, ToolWireSig)>) -> Map<Seq<char>, SigV>
    decreases e.len(),
{
    if e.len() == 0 {
        Map::empty()
    } else {
        tool_map(e.drop_last()).insert(e.last().0@, sig_v(e.last().1))
    }
}

/// The wire signatures a log decodes against, keyed by declared tool name
/// (`ReadRepo`, as recorded in the envelope's `tool` field).
#[derive(Debug)]
pub struct ToolTable {
    /// Tool names with their signatures, in the order they were registered.
    entries: Vec<(String, ToolWireSig)>,
}

impl View for ToolTable {
    type V = Map<Seq<char>, SigV>;

    closed spec fn view(&self) -> Map<Seq<char>, SigV> {
        tool_map(self.entries@)
    }
}

/// A table maps a name to the signature of its last entry of that name.
proof fn lemma_tool_map_last_match(e: Seq<(String, ToolWireSig)>, i: int, name: Seq<char>)
    requires
        -1 <= i < e.len(),
        i >= 0 ==> e[i].0@ == name,
        forall|k: int| i < k < e.len() ==> #[trigger] e[k].0@ != name,
    ensures
        i >= 0 ==> tool_map(e).contains_key(name) && tool_map(e)[name] == sig_v(e[i].1),
        i < 0 ==> !tool_map(e).contains_key(name),
    decreases e.len(),
{
    if e.len() > 0 && i != e.len() - 1 {
        assert forall|k: int| i < k < e.len() - 1 implies #[trigger] e.drop_last()[k].0@ != name by {
            assert(e[k].0@ != name);
        }
        assert(e[e.len() - 1].0@ != name);
        lemma_tool_map_last_match(e.drop_last(), i, name);
    }
}

impl ToolTable {
    /// An empty table.
    pub fn new() -> (r: Self)
        ensures
            r@ == Map::<Seq<char>, SigV>::empty(),
    {
        ToolTable { entries: Vec::new() }
    }

    /// Registers a tool's wire signature, replacing any registered before
    /// under the same name.
    pub fn insert(&mut self, tool: String, sig: ToolWireSig)
        ensures
            final(self)@ == old(self)@.insert(tool@, sig_v(sig)),
    {
        let ghost e0 = self.entries@;
        self.entries.push((tool, sig));
        proof {
            assert(self.entries@.drop_last() =~= e0);
        }
    }

    /// The signature of `tool`, if declared.
    pub fn get(&self, tool: &str) -> (r: Option<&ToolWireSig>)
        ensures
            r matches Some(sig) ==> self@.contains_key(tool@) && self@[tool@] == sig_v(*sig),
            r is None ==> !self@.contains_key(tool@),
    {
        let tc = chars_of(tool);
        let mut i = self.entries.len();
        while i > 0
            invariant
                i <= self.entries@.len(),
                tc@ == tool@,
                forall|k: int|
                    i <= k < self.entries@.len() ==> #[trigger] self.entries@[k].0@ != tool@,
            decreases i,
        {
            let name = chars_of(self.entries[i - 1].0.as_str());
            if chars_eq(name.as_slice(), tc.as_slice()) {
                proof {
                    lemma_tool_map_last_match(self.entries@, i - 1, tool@);
                }
                return Some(&self.entries[i - 1].1);
            }
            i = i - 1;
        }
        proof {
            lemma_tool_map_last_match(self.entries@, -1, tool@);
        }
        None
    }
}

/// Why a log file failed to load.
#[derive(Debug, PartialEq, Eq)]
pub struct LoadError {
    /// 1-based line number of the offending line.
    pub line: usize,
    /// What went wrong on that line.
    pub kind: LoadErrorKind,
}

/// What went wrong on one log line.
#[derive(Debug, PartialEq, Eq)]
pub enum LoadErrorKind {
    /// The line records a tool the program does not declare.
    UnknownTool(String),
    /// The line failed to decode against the tool's signature.
    Decode(DecodeError),
}

/// The message of a load error whose decode failure, if that is what it
/// is, renders as `decode_text`.
pub open spec fn load_error_text(line: nat, unknown: Option<Seq<char>>, decode_text: Seq<char>) -> Seq<
    char,
> {
    match unknown {
        Some(tool) => "line "@ + nat_text(line) + ": the log records tool `"@ + tool
            + "`, which the program does not declare"@,
        None => "line "@ + nat_text(line) + ": "@ + decode_text,
    }
}

impl LoadError {
    /// `line <n>: …`, naming the undeclared tool or the decode error.
    pub fn render(&self) -> (r: String)
        ensures
            self.kind matches LoadErrorKind::UnknownTool(t) ==> r@ == load_error_text(
                self.line as nat,
                Some(t@),
                Seq::empty(),
            ),
            self.kind matches LoadErrorKind::Decode(e) ==> r@ == load_error_text(
                self.line as nat,
                None,
                "decode error at byte "@ + nat_text(e.offset as nat) + ": "@ + e.message@,
            ),
    {
        let mut out = String::new();
        out.append("line ");
        write_nat(&mut out, self.line as u64);
        match &self.kind {
            LoadErrorKind::UnknownTool(tool) => {
                out.append(": the log records tool `");
                out.append(tool.as_str());
                out.append("`, which the program does not declare");
            },
            LoadErrorKind::Decode(e) => {
                out.append(": ");
                let d = e.render();
                out.append(d.as_str());
                proof {
                    reveal_strlit("decode error at byte ");
                    reveal_strlit(": ");
                }
            },
        }
        out
    }
}

/// The index of the first `\n` at or after `p`, or the input's length.
pub open spec fn line_end(s: Seq<char>, p: int) -> int
    decreases s.len() - p,
{
    if p < 0 || p >= s.len() || s[p] == '\n' {
        p
    } else {
        line_end(s, p + 1)
    }
}

/// The lines of `s` from `p` on, as `str::lines` gives them: split at each
/// `\n`, a `\r` before the `\n` dropped, no line after a final `\n`.
pub open spec fn lines_from(s: Seq<char>, p: int) -> Seq<Seq<char>>
    decreases s.len() - p,
{
    if p < 0 || p >= s.len() {
        Seq::empty()
    } else {
        let e = line_end(s, p);
        let raw = s.subrange(p, e);
        if e < s.len() {
            let line = if raw.len() > 0 && raw.last() == '\r' {
                raw.drop_last()
            } else {
                raw
            };
            proof {
                lemma_line_end(s, p);
            }
            seq![line] + lines_from(s, e + 1)
        } else {
            seq![raw]
        }
    }
}

/// A line ends at or after its start, within the input.
pub proof fn lemma_line_end(s: Seq<char>, p: int)
    requires
        0 <= p <= s.len(),
    ensures
        p <= line_end(s, p) <= s.len(),
        line_end(s, p) < s.len() ==> s[line_end(s, p)] == '\n',
        forall|k: int| p <= k < line_end(s, p) ==> s[k] != '\n',
    decreases s.len() - p,
{
    if p < s.len() && s[p] != '\n' {
        lemma_line_end(s, p + 1);
    }
}

/// There are no more lines than characters.
pub proof fn lemma_lines_len(s: Seq<char>, p: int)
    requires
        0 <= p <= s.len(),
    ensures
        lines_from(s, p).len() <= s.len() - p,
    decreases s.len() - p,
{
    if p < s.len() {
        lemma_line_end(s, p);
        if line_end(s, p) < s.len() {
            lemma_lines_len(s, line_end(s, p) + 1);
        }
    }
}

/// Why a log line failed to load.
pub enum LoadFailV {
    /// The line records this undeclared tool.
    Unknown(Seq<char>),
    /// The line failed to decode at this byte offset, for this reason.
    Decode(int, Seq<char>),
}

/// A decode failure at character position `f.0` of `line`, with message
/// `f.1`.
pub open spec fn decode_fail(line: Seq<char>, f: (int, Seq<char>)) -> LoadFailV {
    LoadFailV::Decode(byte_offset_of(line, f.0), f.1)
}

/// What loading one line yields: its record, or why it failed: the
/// undeclared tool it names, or where and why it failed to decode.
#[verifier::opaque]
pub open spec fn load_one(line: Seq<char>, tools: Map<Seq<char>, SigV>, adts: grammar::AdtMap) -> Result<
    RecordV,
    LoadFailV,
> {
    match grammar::envelope_tool(line, 0) {
        None => Err(decode_fail(line, envelope_fail(line, 0))),
        Some((tool, _)) => if !tools.contains_key(tool) {
            Err(LoadFailV::Unknown(tool))
        } else {
            let sig = tools[tool];
            match grammar::decode_record(line, sig.0, sig.1, sig.2, adts) {
                None => Err(decode_fail(line, record_fail(line, sig.0, sig.1, sig.2, adts))),
                Some(r) => Ok(r),
            }
        },
    }
}

/// What loading the lines `ls[i..]` yields: the decoded records, or the
/// 1-based number of the first failing line with why it failed.
pub open spec fn load_from(
    ls: Seq<Seq<char>>,
    i: int,
    tools: Map<Seq<char>, SigV>,
    adts: grammar::AdtMap,
) -> Result<Seq<RecordV>, (nat, LoadFailV)>
    decreases ls.len() - i,
{
    if i < 0 || i >= ls.len() {
        Ok(Seq::empty())
    } else {
        match load_one(ls[i], tools, adts) {
            Err(e) => Err(((i + 1) as nat, e)),
            Ok(r) => match load_from(ls, i + 1, tools, adts) {
                Ok(rs) => Ok(seq![r] + rs),
                Err(e) => Err(e),
            },
        }
    }
}

/// The view of a load outcome.
pub open spec fn load_v(r: Result<Vec<InvocationRecord>, LoadError>) -> Result<
    Seq<RecordV>,
    (nat, LoadFailV),
> {
    match r {
        Ok(recs) => Ok(records_v(recs@)),
        Err(e) => Err((e.line as nat, kind_v(e.kind))),
    }
}

/// The view of what went wrong on a line.
pub open spec fn kind_v(k: LoadErrorKind) -> LoadFailV {
    match k {
        LoadErrorKind::UnknownTool(t) => LoadFailV::Unknown(t@),
        LoadErrorKind::Decode(e) => LoadFailV::Decode(e.offset as int, e.message@),
    }
}

/// The line at `p`, and where the next one starts.
pub(crate) fn next_line(s: &Vec<char>, p: usize) -> (r: (String, usize))
    requires
        p < s@.len(),
    ensures
        p < r.1 <= s@.len(),
        lines_from(s@, p as int) == seq![r.0@] + lines_from(s@, r.1 as int),
{
    let mut e = p;
    while e < s.len() && s[e] != '\n'
        invariant
            p <= e <= s@.len(),
            line_end(s@, p as int) == line_end(s@, e as int),
        decreases s@.len() - e,
    {
        e = e + 1;
    }
    let cut = if e < s.len() && e > p && s[e - 1] == '\r' {
        e - 1
    } else {
        e
    };
    let mut line = String::new();
    let mut k = p;
    while k < cut
        invariant
            p <= k <= cut <= s@.len(),
            line@ == s@.subrange(p as int, k as int),
        decreases cut - k,
    {
        push_char(&mut line, s[k]);
        proof {
            assert(s@.subrange(p as int, k + 1) =~= s@.subrange(p as int, k as int).push(s@[k as int]));
        }
        k = k + 1;
    }
    proof {
        lemma_line_end(s@, p as int);
        let raw = s@.subrange(p as int, e as int);
        if e < s@.len() {
            if raw.len() > 0 && raw.last() == '\r' {
                assert(raw.drop_last() =~= s@.subrange(p as int, cut as int));
            }
        } else {
            assert(lines_from(s@, e as int) =~= Seq::<Seq<char>>::empty());
            assert(seq![raw] =~= seq![raw] + lines_from(s@, e as int));
        }
    }
    let next = if e < s.len() {
        e + 1
    } else {
        e
    };
    (line, next)
}

/// Loads one line, numbered `number` in error reports.
fn load_line(line: &str, number: usize, tools: &ToolTable, adts: &crate::wire::schema::AdtTable) -> (r: Result<
    InvocationRecord,
    LoadError,
>)
    ensures
        r matches Ok(rec) ==> load_one(line@, tools@, adts@) == Ok::<RecordV, LoadFailV>(rec@),
        r matches Err(e) ==> load_one(line@, tools@, adts@) == Err::<RecordV, LoadFailV>(kind_v(e.kind))
            && e.line == number,
{
    proof {
        reveal(load_one);
    }
    let tool = match peek_tool(line) {
        Ok(t) => t,
        Err(err) => {
            return Err(LoadError { line: number, kind: LoadErrorKind::Decode(err) });
        },
    };
    let sig = match tools.get(tool.as_str()) {
        Some(sig) => sig,
        None => {
            return Err(LoadError { line: number, kind: LoadErrorKind::UnknownTool(tool) });
        },
    };
    match decode_record(line, sig, adts) {
        Ok(r) => Ok(r),
        Err(err) => Err(LoadError { line: number, kind: LoadErrorKind::Decode(err) }),
    }
}

/// Parses and decodes a JSON-lines audit log against `tools`: the envelope
/// names each record's tool, whose signature directs the value decoding.
/// Every line must decode; there is no skipping.
pub fn load_log(input: &str, tools: &ToolTable, adts: &crate::wire::schema::AdtTable) -> (r: Result<
    Vec<InvocationRecord>,
    LoadError,
>)
    ensures
        load_v(r) == load_from(lines_from(input@, 0), 0, tools@, adts@),
{
    let s = chars_of(input);
    let mut records: Vec<InvocationRecord> = Vec::new();
    let mut p: usize = 0;
    let ghost ls = lines_from(s@, 0);
    loop
        invariant
            s@ == input@,
            ls == lines_from(s@, 0),
            p <= s@.len(),
            records@.len() <= ls.len(),
            ls == ls.take(records@.len() as int) + lines_from(s@, p as int),
            load_from(ls, 0, tools@, adts@) == match load_from(
                ls,
                records@.len() as int,
                tools@,
                adts@,
            ) {
                Ok(rs) => Ok(records_v(records@) + rs),
                Err(e) => Err(e),
            },
        decreases s@.len() - p,
    {
        let ghost n = records@.len() as int;
        if p >= s.len() {
            proof {
                assert(lines_from(s@, p as int) =~= Seq::<Seq<char>>::empty());
                assert(ls.take(n) + Seq::<Seq<char>>::empty() =~= ls.take(n));
                assert(records_v(records@) + Seq::<RecordV>::empty() =~= records_v(records@));
            }
            return Ok(records);
        }
        let (line, next) = next_line(&s, p);
        proof {
            assert(ls[n] == (ls.take(n) + lines_from(s@, p as int))[n]);
            assert(ls[n] == line@);
            assert(ls.take(n + 1) =~= ls.take(n).push(line@));
            assert(ls =~= ls.take(n + 1) + lines_from(s@, next as int));
        }
        proof {
            lemma_lines_len(s@, 0);
        }
        let record = match load_line(line.as_str(), records.len() + 1, tools, adts) {
            Ok(r) => r,
            Err(e) => {
                return Err(e);
            },
        };
        let ghost before = records@;
        records.push(record);
        proof {
            assert(records@.drop_last() =~= before);
            assert(records_v(records@) =~= records_v(before).push(records@.last()@));
            match load_from(ls, n + 1, tools@, adts@) {
                Ok(rs) => {
                    assert(records_v(before) + (seq![records@.last()@] + rs) =~= records_v(records@)
                        + rs);
                },
                Err(_) => {},
            }
        }
        p = next;
    }
}


// ── the cursor ──────────────────────────────────────────────────

/// A cursor driving strict-sequential replay across a decoded log.
///
/// Each [`offer`](Self::offer) matches the program's next tool call
/// against the record at the cursor: a match returns the logged result and
/// advances by one; a divergence reports without advancing. A green replay
/// ends with [`remaining`](Self::remaining) at zero.
#[derive(Debug)]
pub struct ReplayCursor<'log> {
    /// The decoded run.
    log: &'log [InvocationRecord],
    /// Index of the next record to match.
    position: usize,
}

impl<'log> ReplayCursor<'log> {
    /// The position never passes the end of the log.
    #[verifier::type_invariant]
    spec fn within(self) -> bool {
        self.position <= self.log@.len()
    }

    /// The records of the log.
    pub closed spec fn records(&self) -> Seq<RecordV> {
        records_v(self.log@)
    }

    /// The index of the next record to match.
    pub closed spec fn at(&self) -> nat {
        self.position as nat
    }

    /// A cursor at the start of `log`.
    pub fn new(log: &'log [InvocationRecord]) -> (r: Self)
        ensures
            r.records() == records_v(log@),
            r.at() == 0,
    {
        ReplayCursor { log, position: 0 }
    }

    /// Index of the next record to match.
    pub fn position(&self) -> (r: usize)
        ensures
            r == self.at(),
    {
        self.position
    }

    /// Records not yet consumed.
    pub fn remaining(&self) -> (r: usize)
        ensures
            r == self.records().len() - self.at(),
    {
        proof {
            use_type_invariant(self);
        }
        self.log.len() - self.position
    }

    /// Offers the program's next tool call: the logged result when the
    /// record at the cursor matches, the cursor then advancing by one; a
    /// report of the divergence otherwise, the cursor staying put.
    pub fn offer(&mut self, tool: &str, args: &WireValue) -> (r: Result<
        &'log ToolResult,
        Box<DivergenceReport>,
    >)
        ensures
            final(self).records() == old(self).records(),
            r matches Ok(res) ==> replay_spec(old(self).records(), old(self).at(), tool@, args@)
                == Ok::<ResultV, DivergenceV>(res@) && final(self).at() == old(self).at() + 1,
            r matches Err(rep) ==> {
                &&& replay_spec(old(self).records(), old(self).at(), tool@, args@) == Err::<
                    ResultV,
                    DivergenceV,
                >(rep.divergence@)
                &&& final(self).at() == old(self).at()
                &&& rep.expected_v() == (if old(self).at() < old(self).records().len() {
                    Some(old(self).records()[old(self).at() as int])
                } else {
                    None
                })
                &&& rep.offered_tool@ == tool@
                &&& rep.offered_args@ == args@
                &&& rep.log_len == old(self).records().len()
            },
    {
        proof {
            use_type_invariant(&*self);
        }
        let len = self.log.len();
        match replay(self.log, self.position, tool, args) {
            Ok(result) => {
                assert(self.position < len);
                self.position = self.position + 1;
                Ok(result)
            },
            Err(divergence) => {
                let expected = if self.position < self.log.len() {
                    Some(self.log[self.position].clone())
                } else {
                    None
                };
                Err(
                    Box::new(
                        DivergenceReport {
                            divergence,
                            expected,
                            offered_tool: tool.to_owned(),
                            offered_args: args.clone(),
                            log_len: self.log.len(),
                        },
                    ),
                )
            },
        }
    }
}

// ── divergence reporting ────────────────────────────────────────

/// A [`Divergence`] enriched with everything a diagnosis needs: the
/// expected (logged) record with its caller, the offered call, and the
/// log's extent.
#[derive(Debug, PartialEq)]
pub struct DivergenceReport {
    /// The structural divergence from the replay core.
    pub divergence: Divergence,
    /// The logged record the run expected at the divergence position;
    /// `None` when the log is exhausted.
    pub expected: Option<InvocationRecord>,
    /// The tool the program offered.
    pub offered_tool: String,
    /// The args the program offered.
    pub offered_args: WireValue,
    /// Total records in the log.
    pub log_len: usize,
}

/// A string in debug form: quoted, its contents escaped as `{:?}` escapes
/// them.
pub uninterp spec fn debug_quoted(s: Seq<char>) -> Seq<char>;

/// `s` in debug form: `format!("{s:?}")` on a `&str`, which writes the
/// string between double quotes with std's debug escaping of its
/// characters. The text is named, not stated.
#[verifier::external_body]
fn quote_debug(s: &str) -> (r: String)
    ensures
        r@ == debug_quoted(s@),
{
    format!("{s:?}")
}

/// The debug form of a value: its variant's name with the contents in
/// parentheses; lists and tuples as `[a, b]`, a record's fields as
/// `{"label": value, ...}`, strings, labels and constructor names quoted.
pub open spec fn debug_form(v: Val) -> Seq<char>
    decreases v, 1nat,
{
    match v {
        Val::Unit => seq!['U', 'n', 'i', 't'],
        Val::Int(i) => seq!['I', 'n', 't', '('] + int_text(i as int) + seq![')'],
        Val::Float(t) => seq!['F', 'l', 'o', 'a', 't', '('] + t + seq![')'],
        Val::Str(t) => seq!['S', 't', 'r', 'i', 'n', 'g', '('] + debug_quoted(t) + seq![')'],
        Val::List(items) => seq!['L', 'i', 's', 't', '(', '['] + debug_items(items) + seq![']', ')'],
        Val::Tuple(items) => seq!['T', 'u', 'p', 'l', 'e', '(', '['] + debug_items(items) + seq![']', ')'],
        Val::Record(fs) => seq!['R', 'e', 'c', 'o', 'r', 'd', '(', '{'] + debug_fields(fs) + seq!['}', ')'],
        Val::Ctor(n, args) => seq!['C', 't', 'o', 'r', '('] + debug_quoted(n) + seq![',', ' ', '[']
            + debug_items(args) + seq![']', ')'],
    }
}

/// The debug forms of `s` joined by `, `.
pub open spec fn debug_items(s: Seq<Val>) -> Seq<char>
    decreases s, 0nat,
{
    if s.len() == 0 {
        Seq::empty()
    } else if s.len() == 1 {
        debug_form(s[0])
    } else {
        debug_items(s.drop_last()) + seq![',', ' '] + debug_form(s.last())
    }
}

/// The `"label": value` debug forms of `s` joined by `, `.
pub open spec fn debug_fields(s: Seq<(Seq<char>, Val)>) -> Seq<char>
    decreases s, 0nat,
{
    if s.len() == 0 {
        Seq::empty()
    } else if s.len() == 1 {
        debug_quoted(s[0].0) + seq![':', ' '] + debug_form(s[0].1)
    } else {
        debug_fields(s.drop_last()) + seq![',', ' '] + debug_quoted(s.last().0) + seq![':', ' ']
            + debug_form(s.last().1)
    }
}

/// Appends the debug form of `v`.
fn write_debug(out: &mut String, v: &WireValue)
    ensures
        final(out)@ == old(out)@ + debug_form(v@),
    decreases v, 1nat,
{
    let ghost start = out@;
    match v {
        WireValue::Unit => {
            push_chars(out, &['U', 'n', 'i', 't']);
        },
        WireValue::Int(i) => {
            push_chars(out, &['I', 'n', 't', '(']);
            write_int(out, *i);
            push_char(out, ')');
        },
        WireValue::Float(t) => {
            push_chars(out, &['F', 'l', 'o', 'a', 't', '(']);
            let cs = chars_of(t.as_str());
            push_chars(out, cs.as_slice());
            push_char(out, ')');
        },
        WireValue::String(t) => {
            push_chars(out, &['S', 't', 'r', 'i', 'n', 'g', '(']);
            let q = quote_debug(t.as_str());
            let cs = chars_of(q.as_str());
            push_chars(out, cs.as_slice());
            push_char(out, ')');
        },
        WireValue::List(items) => {
            push_chars(out, &['L', 'i', 's', 't', '(', '[']);
            write_debug_items(out, items);
            push_chars(out, &[']', ')']);
        },
        WireValue::Tuple(items) => {
            push_chars(out, &['T', 'u', 'p', 'l', 'e', '(', '[']);
            write_debug_items(out, items);
            push_chars(out, &[']', ')']);
        },
        WireValue::Record(fs) => {
            push_chars(out, &['R', 'e', 'c', 'o', 'r', 'd', '(', '{']);
            write_debug_fields(out, fs);
            push_chars(out, &['}', ')']);
        },
        WireValue::Ctor(n, args) => {
            push_chars(out, &['C', 't', 'o', 'r', '(']);
            let q = quote_debug(n.as_str());
            let cs = chars_of(q.as_str());
            push_chars(out, cs.as_slice());
            push_chars(out, &[',', ' ', '[']);
            write_debug_items(out, args);
            push_chars(out, &[']', ')']);
        },
    }
    assert(out@ =~= start + debug_form(v@));
}

/// Appends the debug forms of `items` joined by `, `.
fn write_debug_items(out: &mut String, items: &Vec<WireValue>)
    ensures
        final(out)@ == old(out)@ + debug_items(vals_v(items@)),
    decreases items, 0nat,
{
    let ghost s = vals_v(items@);
    proof {
        lemma_vals_v(items@);
    }
    let ghost start = out@;
    proof {
        assert(start + debug_items(s.take(0)) =~= start);
    }
    let mut i: usize = 0;
    while i < items.len()
        invariant
            i <= items@.len(),
            s == vals_v(items@),
            s.len() == items@.len(),
            forall|j: int| 0 <= j < items@.len() ==> #[trigger] s[j] == items@[j]@,
            out@ == start + debug_items(s.take(i as int)),
        decreases items@.len() - i,
    {
        let ghost before = out@;
        if i > 0 {
            push_chars(out, &[',', ' ']);
        }
        assert(items@[i as int] == items[i as int]);
        write_debug(out, &items[i]);
        proof {
            let t = s.take(i + 1);
            assert(t.drop_last() =~= s.take(i as int));
            assert(t.last() == s[i as int]);
            if i == 0 {
                assert(t[0] == s[0]);
                assert(start + debug_items(s.take(0)) + debug_form(s[0]) =~= start + debug_items(t));
            } else {
                assert(before + seq![',', ' '] + debug_form(s[i as int]) =~= start + debug_items(t));
            }
        }
        i = i + 1;
    }
    assert(s.take(i as int) =~= s);
}

/// Appends the `"label": value` debug forms of `fs` joined by `, `.
fn write_debug_fields(out: &mut String, fs: &Vec<(String, WireValue)>)
    ensures
        final(out)@ == old(out)@ + debug_fields(fields_v(fs@)),
    decreases fs, 0nat,
{
    let ghost s = fields_v(fs@);
    proof {
        lemma_fields_v(fs@);
    }
    let ghost start = out@;
    proof {
        assert(start + debug_fields(s.take(0)) =~= start);
    }
    let mut i: usize = 0;
    while i < fs.len()
        invariant
            i <= fs@.len(),
            s == fields_v(fs@),
            s.len() == fs@.len(),
            forall|j: int| 0 <= j < fs@.len() ==> #[trigger] s[j] == (fs@[j].0@, fs@[j].1@),
            out@ == start + debug_fields(s.take(i as int)),
        decreases fs@.len() - i,
    {
        let ghost before = out@;
        if i > 0 {
            push_chars(out, &[',', ' ']);
        }
        let (label, value) = &fs[i];
        assert(fs@[i as int].1 == fs[i as int].1);
        let q = quote_debug(label.as_str());
        let cs = chars_of(q.as_str());
        let ghost mid = out@;
        push_chars(out, cs.as_slice());
        push_chars(out, &[':', ' ']);
        write_debug(out, value);
        proof {
            let t = s.take(i + 1);
            assert(t.drop_last() =~= s.take(i as int));
            assert(t.last() == s[i as int]);
            if i == 0 {
                assert(t[0] == s[0]);
                assert(start + debug_fields(s.take(0)) + debug_quoted(s[0].0) + seq![':', ' '] + debug_form(s[0].1)
                    =~= start + debug_fields(t));
            } else {
                assert(before + seq![',', ' '] + debug_quoted(s[i as int].0) + seq![':', ' ']
                    + debug_form(s[i as int].1) =~= start + debug_fields(t));
            }
        }
        i = i + 1;
    }
    assert(s.take(i as int) =~= s);
}

/// The debug form of `v`.
fn debug_text(v: &WireValue) -> (r: String)
    ensures
        r@ == debug_form(v@),
{
    let mut out = String::new();
    write_debug(&mut out, v);
    proof {
        assert(Seq::<char>::empty() + debug_form(v@) =~= debug_form(v@));
    }
    out
}

/// A call's args in canonical wire encoding, or in debug form when they
/// cannot be encoded.
pub open spec fn args_text(v: Val) -> Seq<char> {
    if val_wf(v) && val_ok(v) {
        enc_value(v)
    } else {
        debug_form(v)
    }
}

/// Renders a call's args.
fn render_args(args: &WireValue) -> (r: String)
    ensures
        r@ == args_text(args@),
{
    if !args.is_well_formed() {
        return debug_text(args);
    }
    match encode_value(args) {
        Ok(text) => text,
        Err(_) => debug_text(args),
    }
}

/// The multi-line message of a divergence report.
pub open spec fn report_text(
    d: DivergenceV,
    expected: Option<RecordV>,
    offered_tool: Seq<char>,
    offered_args: Val,
    log_len: nat,
) -> Seq<char> {
    let exp = match expected {
        Some(r) => "  expected: "@ + r.tool + " "@ + args_text(r.args) + " (caller "@ + r.caller
            + ")\n"@,
        None => Seq::empty(),
    };
    let off = "  offered:  "@ + offered_tool + " "@ + args_text(offered_args);
    match d {
        DivergenceV::Exhausted { position, .. } => "replay diverged at position "@ + nat_text(
            position,
        ) + " of "@ + nat_text(log_len) + ": the log is exhausted\n"@ + off,
        DivergenceV::ToolMismatch { position, logged, requested } => "replay diverged at position "@
            + nat_text(position) + " of "@ + nat_text(log_len) + ": the log expects `"@ + logged
            + "`, the program offered `"@ + requested + "`\n"@ + exp + off,
        DivergenceV::ArgsMismatch { position, .. } => "replay diverged at position "@ + nat_text(
            position,
        ) + " of "@ + nat_text(log_len) + ": `"@ + offered_tool + "` matches but the args differ\n"@
            + exp + off,
    }
}

impl DivergenceReport {
    /// The view of the expected record.
    pub open spec fn expected_v(&self) -> Option<RecordV> {
        match &self.expected {
            Some(r) => Some(r@),
            None => None,
        }
    }

    /// Appends the `expected:` line, the logged record's call and caller.
    fn expected_line(&self, out: &mut String)
        ensures
            final(out)@ == old(out)@ + match self.expected_v() {
                Some(r) => "  expected: "@ + r.tool + " "@ + args_text(r.args) + " (caller "@
                    + r.caller + ")\n"@,
                None => Seq::empty(),
            },
    {
        match &self.expected {
            Some(record) => {
                out.append("  expected: ");
                out.append(record.tool.as_str());
                out.append(" ");
                let a = render_args(&record.args);
                out.append(a.as_str());
                out.append(" (caller ");
                out.append(record.caller.as_str());
                out.append(")\n");
            },
            None => {
                proof {
                    assert(old(out)@ + Seq::<char>::empty() =~= old(out)@);
                }
            },
        }
    }

    /// Renders the report: what diverged where, the expected record, and
    /// the offered call.
    pub fn render(&self) -> (r: String)
        ensures
            r@ == report_text(
                self.divergence@,
                self.expected_v(),
                self.offered_tool@,
                self.offered_args@,
                self.log_len as nat,
            ),
    {
        let mut out = String::new();
        out.append("replay diverged at position ");
        match &self.divergence {
            Divergence::Exhausted { position, .. } => {
                write_nat(&mut out, *position as u64);
                out.append(" of ");
                write_nat(&mut out, self.log_len as u64);
                out.append(": the log is exhausted\n");
            },
            Divergence::ToolMismatch { position, logged, requested } => {
                write_nat(&mut out, *position as u64);
                out.append(" of ");
                write_nat(&mut out, self.log_len as u64);
                out.append(": the log expects `");
                out.append(logged.as_str());
                out.append("`, the program offered `");
                out.append(requested.as_str());
                out.append("`\n");
                self.expected_line(&mut out);
            },
            Divergence::ArgsMismatch { position, .. } => {
                write_nat(&mut out, *position as u64);
                out.append(" of ");
                write_nat(&mut out, self.log_len as u64);
                out.append(": `");
                out.append(self.offered_tool.as_str());
                out.append("` matches but the args differ\n");
                self.expected_line(&mut out);
            },
        }
        out.append("  offered:  ");
        out.append(self.offered_tool.as_str());
        out.append(" ");
        let a = render_args(&self.offered_args);
        out.append(a.as_str());
        out
    }
}

// ── the log round trip ─────────────────────────────────────────────

/// The log a sink holds after recording `rs` in order: each record's
/// canonical line followed by a newline.
pub open spec fn log_text(rs: Seq<RecordV>) -> Seq<char>
    decreases rs.len(),
{
    if rs.len() == 0 {
        Seq::empty()
    } else {
        enc_record(rs[0]).push('\n') + log_text(rs.drop_first())
    }
}

/// Recording one more record appends its line to the log.
pub proof fn lemma_log_text_push(rs: Seq<RecordV>, r: RecordV)
    ensures
        log_text(rs.push(r)) == log_text(rs) + enc_record(r).push('\n'),
    decreases rs.len(),
{
    if rs.len() == 0 {
        assert(rs.push(r).drop_first() =~= Seq::<RecordV>::empty());
        assert(rs.push(r)[0] == r);
        assert(log_text(Seq::<RecordV>::empty()) == Seq::<char>::empty());
        assert(log_text(rs.push(r)) =~= enc_record(r).push('\n'));
        assert(Seq::<char>::empty() + enc_record(r).push('\n') =~= enc_record(r).push('\n'));
    } else {
        lemma_log_text_push(rs.drop_first(), r);
        assert(rs.push(r).drop_first() =~= rs.drop_first().push(r));
        assert(rs.push(r)[0] == rs[0]);
        let l0 = enc_record(rs[0]).push('\n');
        assert(l0 + (log_text(rs.drop_first()) + enc_record(r).push('\n')) =~= (l0 + log_text(rs.drop_first()))
            + enc_record(r).push('\n'));
    }
}

/// A sink's successive logs: starting empty, each successful `emit` of
/// the next record appends that record's canonical line and a newline
/// (what `JsonLinesSink::emit` ensures), so after the emits of `rs` the
/// log is the lines of `rs` concatenated in order.
pub proof fn law_sink_log(logs: Seq<Seq<char>>, rs: Seq<RecordV>)
    requires
        logs.len() == rs.len() + 1,
        logs[0] == Seq::<char>::empty(),
        forall|i: int| 0 <= i < rs.len() ==> #[trigger] logs[i + 1] == logs[i] + enc_record(rs[i]).push('\n'),
    ensures
        logs.last() == log_text(rs),
    decreases rs.len(),
{
    if rs.len() > 0 {
        let n = rs.len() - 1;
        let pl = logs.drop_last();
        let pr = rs.drop_last();
        assert forall|i: int| 0 <= i < pr.len() implies #[trigger] pl[i + 1] == pl[i] + enc_record(pr[i]).push('\n') by {
            assert(logs[i + 1] == logs[i] + enc_record(rs[i]).push('\n'));
        }
        law_sink_log(pl, pr);
        assert(logs[n + 1] == logs[n] + enc_record(rs[n]).push('\n'));
        lemma_log_text_push(pr, rs[n]);
        assert(pr.push(rs[n]) =~= rs);
    } else {
        assert(log_text(rs) == Seq::<char>::empty());
    }
}

/// A run of emits into a `JsonLinesSink`: the sink starts empty
/// (`JsonLinesSink::new`) and each successful `emit` of the next record
/// appends that record's canonical line and a newline. After the run, the
/// sink's log (`as_str`) is the lines of `rs` concatenated in order, each
/// ended by a newline, so a non-empty log ends with one.
pub proof fn law_sink_run(sinks: Seq<JsonLinesSink>, rs: Seq<RecordV>)
    requires
        sinks.len() == rs.len() + 1,
        sinks[0]@ == Seq::<char>::empty(),
        forall|i: int| 0 <= i < rs.len() ==> #[trigger] sinks[i + 1]@ == sinks[i]@ + enc_record(rs[i]).push('\n'),
    ensures
        sinks.last()@ == log_text(rs),
        rs.len() > 0 ==> sinks.last()@.len() > 0 && sinks.last()@.last() == '\n',
{
    let logs = Seq::new(sinks.len(), |i: int| sinks[i]@);
    assert forall|i: int| 0 <= i < rs.len() implies #[trigger] logs[i + 1] == logs[i] + enc_record(rs[i]).push('\n') by {
        assert(sinks[i + 1]@ == sinks[i]@ + enc_record(rs[i]).push('\n'));
    }
    law_sink_log(logs, rs);
    if rs.len() > 0 {
        let n = rs.len() - 1;
        assert(sinks[n + 1]@ == sinks[n]@ + enc_record(rs[n]).push('\n'));
        assert(logs.last() == sinks.last()@);
    }
}

/// Line ends past a prefix are the prefix's length on from the rest's.
proof fn lemma_line_end_shift(a: Seq<char>, b: Seq<char>, p: int)
    requires
        0 <= p <= b.len(),
    ensures
        line_end(a + b, a.len() + p) == a.len() + line_end(b, p),
    decreases b.len() - p,
{
    if p < b.len() {
        assert((a + b)[a.len() + p] == b[p]);
        if b[p] != '\n' {
            lemma_line_end_shift(a, b, p + 1);
        }
    }
}

/// The lines past a prefix are the lines of the rest.
proof fn lemma_lines_shift(a: Seq<char>, b: Seq<char>, p: int)
    requires
        0 <= p <= b.len(),
    ensures
        lines_from(a + b, a.len() + p) == lines_from(b, p),
    decreases b.len() - p,
{
    if p < b.len() {
        lemma_line_end_shift(a, b, p);
        lemma_line_end(b, p);
        let e = line_end(b, p);
        assert((a + b).subrange(a.len() + p, a.len() + e) =~= b.subrange(p, e));
        if e < b.len() {
            lemma_lines_shift(a, b, e + 1);
        }
    }
}

/// The first line of a log is the first record's line.
proof fn lemma_first_line(line: Seq<char>, rest: Seq<char>)
    requires
        nl_free(line),
        line.len() > 0,
        line.last() != '\r',
    ensures
        lines_from(line.push('\n') + rest, 0) == seq![line] + lines_from(rest, 0),
{
    let s = line.push('\n') + rest;
    assert forall|k: int| 0 <= k < line.len() implies s[k] != '\n' by {
        assert(s[k] == line[k]);
    }
    assert(s[line.len() as int] == '\n');
    assert(line_end(s, 0) == line.len()) by {
        lemma_line_end(s, 0);
        if line_end(s, 0) < line.len() {
            assert(s[line_end(s, 0)] == '\n');
        }
    }
    assert(s.subrange(0, line.len() as int) =~= line);
    lemma_lines_shift(line.push('\n'), rest, 0);
}

/// Each record's line is a line of the log.
#[verifier::spinoff_prover]
#[verifier::rlimit(30)]
proof fn lemma_log_lines(rs: Seq<RecordV>)
    requires
        forall|k: int|
            0 <= k < rs.len() ==> nl_free(enc_record(#[trigger] rs[k])) && enc_record(rs[k]).len() > 0
                && enc_record(rs[k]).last() == '}',
    ensures
        lines_from(log_text(rs), 0) == Seq::new(rs.len(), |k: int| enc_record(rs[k])),
    decreases rs.len(),
{
    if rs.len() == 0 {
        assert(lines_from(log_text(rs), 0) =~= Seq::<Seq<char>>::empty());
    } else {
        let t = rs.drop_first();
        assert forall|k: int| 0 <= k < t.len() implies nl_free(enc_record(#[trigger] t[k])) && enc_record(
            t[k],
        ).len() > 0 && enc_record(t[k]).last() == '}' by {
            assert(t[k] == rs[k + 1]);
        }
        lemma_log_lines(t);
        assert(nl_free(enc_record(rs[0])));
        lemma_first_line(enc_record(rs[0]), log_text(t));
        assert(Seq::new(rs.len(), |k: int| enc_record(rs[k])) =~= seq![enc_record(rs[0])] + Seq::new(
            t.len(),
            |k: int| enc_record(t[k]),
        ));
    }
}

/// A record's line loads back as the record, under a table naming its tool
/// with a signature the record is typed by.
proof fn lemma_load_one(r: RecordV, tools: Map<Seq<char>, SigV>, adts: grammar::AdtMap)
    requires
        tools.contains_key(r.tool),
        record_typed(r, tools[r.tool].0, tools[r.tool].1, tools[r.tool].2, adts),
    ensures
        load_one(enc_record(r), tools, adts) == Ok::<RecordV, LoadFailV>(r),
{
    reveal(load_one);
    lemma_record_envelope(r);
    let sig = tools[r.tool];
    law_record_round_trip(r, sig.0, sig.1, sig.2, adts);
}

/// Lines that each load as their record load as the records.
proof fn lemma_load_lines(rs: Seq<RecordV>, i: int, tools: Map<Seq<char>, SigV>, adts: grammar::AdtMap)
    requires
        0 <= i <= rs.len(),
        forall|k: int|
            0 <= k < rs.len() ==> load_one(enc_record(#[trigger] rs[k]), tools, adts) == Ok::<
                RecordV,
                LoadFailV,
            >(rs[k]),
    ensures
        load_from(Seq::new(rs.len(), |k: int| enc_record(rs[k])), i, tools, adts) == Ok::<
            Seq<RecordV>,
            (nat, LoadFailV),
        >(rs.skip(i)),
    decreases rs.len() - i,
{
    let ls = Seq::new(rs.len(), |k: int| enc_record(rs[k]));
    if i < rs.len() {
        lemma_load_lines(rs, i + 1, tools, adts);
        assert(ls[i] == enc_record(rs[i]));
        assert(rs.skip(i) =~= seq![rs[i]] + rs.skip(i + 1));
    } else {
        assert(rs.skip(i) =~= Seq::<RecordV>::empty());
    }
}

/// A log of records, each typed by the signature its tool has in the
/// table, loads back as exactly those records; replayed in order, every
/// recorded call is served its recorded result, and a call past the end is
/// refused as exhausted. What the audit sink writes, a replay serves back.
pub proof fn law_log_replay(rs: Seq<RecordV>, tools: Map<Seq<char>, SigV>, adts: grammar::AdtMap)
    requires
        forall|k: int|
            0 <= k < rs.len() ==> tools.contains_key(#[trigger] rs[k].tool) && record_typed(
                rs[k],
                tools[rs[k].tool].0,
                tools[rs[k].tool].1,
                tools[rs[k].tool].2,
                adts,
            ),
    ensures
        load_from(lines_from(log_text(rs), 0), 0, tools, adts) == Ok::<Seq<RecordV>, (nat, LoadFailV)>(
            rs,
        ),
        forall|k: int|
            0 <= k < rs.len() ==> replay_spec(rs, k as nat, #[trigger] rs[k].tool, rs[k].args) == Ok::<
                ResultV,
                DivergenceV,
            >(rs[k].result),
        forall|tool: Seq<char>, args: Val|
            replay_spec(rs, rs.len(), tool, args) == Err::<ResultV, DivergenceV>(
                DivergenceV::Exhausted { position: rs.len(), requested: tool },
            ),
{
    assert forall|k: int|
        0 <= k < rs.len() implies nl_free(enc_record(#[trigger] rs[k])) && enc_record(rs[k]).len() > 0
            && enc_record(rs[k]).last() == '}' by {
        let sig = tools[rs[k].tool];
        lemma_record_nl(rs[k], sig.0, sig.1, sig.2, adts);
    }
    lemma_log_lines(rs);
    assert forall|k: int| 0 <= k < rs.len() implies load_one(enc_record(#[trigger] rs[k]), tools, adts) == Ok::<
        RecordV,
        LoadFailV,
    >(rs[k]) by {
        lemma_load_one(rs[k], tools, adts);
    }
    lemma_load_lines(rs, 0, tools, adts);
    assert(rs.skip(0) =~= rs);
}

} // verus!
