//! Strict-sequential replay over a decoded log: the record at a position
//! must match the requested tool and arguments exactly, and its logged
//! result is returned.
use vstd::prelude::*;

use crate::wire::ops::value_eq;
use crate::wire::text::write_nat;
use crate::wire::value::{InvocationRecord, ToolResult, Val, WireValue};

verus! {

/// Where and how a replay diverged from the log.
#[derive(Debug, PartialEq)]
#[allow(inconsistent_fields)]
pub enum Divergence {
    /// The log has no record at this position.
    Exhausted {
        /// The exhausted position.
        position: usize,
        /// The tool the program requested.
        requested: String,
    },
    /// The record at this position logs a different tool.
    ToolMismatch {
        /// Position of the mismatching record.
        position: usize,
        /// The tool the log recorded.
        logged: String,
        /// The tool the program requested.
        requested: String,
    },
    /// The record at this position logs the same tool with different args.
    ArgsMismatch {
        /// Position of the mismatching record.
        position: usize,
        /// The args the log recorded.
        logged: WireValue,
        /// The args the program requested.
        requested: WireValue,
    },
}

/// The view of a divergence.
#[allow(inconsistent_fields)]
pub enum DivergenceV {
    /// The log is exhausted at the position.
    Exhausted { position: nat, requested: Seq<char> },
    /// The logged tool differs.
    ToolMismatch { position: nat, logged: Seq<char>, requested: Seq<char> },
    /// The logged args differ.
    ArgsMismatch { position: nat, logged: Val, requested: Val },
}

impl View for Divergence {
    type V = DivergenceV;

    open spec fn view(&self) -> DivergenceV {
        match self {
            Divergence::Exhausted { position, requested } => DivergenceV::Exhausted {
                position: *position as nat,
                requested: requested@,
            },
            Divergence::ToolMismatch { position, logged, requested } => DivergenceV::ToolMismatch {
                position: *position as nat,
                logged: logged@,
                requested: requested@,
            },
            Divergence::ArgsMismatch { position, logged, requested } => DivergenceV::ArgsMismatch {
                position: *position as nat,
                logged: logged@,
                requested: requested@,
            },
        }
    }
}

/// What replaying the call `(tool, args)` at `position` against `log`
/// yields: the logged result when the record there matches exactly, the
/// first mismatch otherwise.
pub open spec fn replay_spec(
    log: Seq<crate::wire::value::RecordV>,
    position: nat,
    tool: Seq<char>,
    args: Val,
) -> Result<crate::wire::value::ResultV, DivergenceV> {
    if position >= log.len() {
        Err(DivergenceV::Exhausted { position, requested: tool })
    } else if log[position as int].tool != tool {
        Err(
            DivergenceV::ToolMismatch {
                position,
                logged: log[position as int].tool,
                requested: tool,
            },
        )
    } else if log[position as int].args != args {
        Err(
            DivergenceV::ArgsMismatch {
                position,
                logged: log[position as int].args,
                requested: args,
            },
        )
    } else {
        Ok(log[position as int].result)
    }
}

/// The views of a sequence of records.
pub open spec fn records_v(log: Seq<InvocationRecord>) -> Seq<crate::wire::value::RecordV> {
    Seq::new(log.len(), |i: int| log[i]@)
}

/// The view of a replay outcome.
pub open spec fn outcome_v(r: Result<&ToolResult, Divergence>) -> Result<
    crate::wire::value::ResultV,
    DivergenceV,
> {
    match r {
        Ok(x) => Ok(x@),
        Err(d) => Err(d@),
    }
}

/// Whether two strings are equal.
pub fn str_eq(a: &str, b: &str) -> (r: bool)
    ensures
        r == (a@ == b@),
{
    let x = a.to_owned();
    let y = b.to_owned();
    x == y
}

/// Replays one tool invocation against a log: the record at `position`
/// must match `tool` and `args` exactly, and its logged result — ok or
/// err — is returned. Matching is strictly sequential; the caller advances
/// `position` by one after each success. Any mismatch is a hard error.
pub fn replay<'log>(
    log: &'log [InvocationRecord],
    position: usize,
    tool: &str,
    args: &WireValue,
) -> (r: Result<&'log ToolResult, Divergence>)
    ensures
        outcome_v(r) == replay_spec(records_v(log@), position as nat, tool@, args@),
        r matches Ok(x) ==> position < log@.len() && x == &log@[position as int].result,
{
    if position >= log.len() {
        return Err(Divergence::Exhausted { position, requested: tool.to_owned() });
    }
    let record = &log[position];
    assert(records_v(log@)[position as int] == record@);
    if !str_eq(record.tool.as_str(), tool) {
        return Err(
            Divergence::ToolMismatch {
                position,
                logged: record.tool.clone(),
                requested: tool.to_owned(),
            },
        );
    }
    if !value_eq(&record.args, args) {
        return Err(
            Divergence::ArgsMismatch {
                position,
                logged: record.args.clone(),
                requested: args.clone(),
            },
        );
    }
    Ok(&record.result)
}

/// The message of a divergence.
pub open spec fn divergence_text(d: DivergenceV) -> Seq<char> {
    match d {
        DivergenceV::Exhausted { position, requested } => "replay diverged at position "@
            + crate::wire::text::nat_text(position) + ": log exhausted, `"@ + requested
            + "` requested"@,
        DivergenceV::ToolMismatch { position, logged, requested } => "replay diverged at position "@
            + crate::wire::text::nat_text(position) + ": log has `"@ + logged + "`, `"@ + requested
            + "` requested"@,
        DivergenceV::ArgsMismatch { position, .. } => "replay diverged at position "@
            + crate::wire::text::nat_text(position) + ": same tool, different args"@,
    }
}

impl Divergence {
    /// Renders the divergence: the position and, for a tool mismatch, the
    /// logged and requested tools.
    pub fn render(&self) -> (r: String)
        ensures
            r@ == divergence_text(self@),
    {
        let mut out = String::new();
        out.append("replay diverged at position ");
        match self {
            Divergence::Exhausted { position, requested } => {
                write_nat(&mut out, *position as u64);
                out.append(": log exhausted, `");
                out.append(requested.as_str());
                out.append("` requested");
            },
            Divergence::ToolMismatch { position, logged, requested } => {
                write_nat(&mut out, *position as u64);
                out.append(": log has `");
                out.append(logged.as_str());
                out.append("`, `");
                out.append(requested.as_str());
                out.append("` requested");
            },
            Divergence::ArgsMismatch { position, .. } => {
                write_nat(&mut out, *position as u64);
                out.append(": same tool, different args");
            },
        }
        out
    }
}

/// The log position a divergence names.
pub open spec fn divergence_position(d: DivergenceV) -> nat {
    match d {
        DivergenceV::Exhausted { position, .. } => position,
        DivergenceV::ToolMismatch { position, .. } => position,
        DivergenceV::ArgsMismatch { position, .. } => position,
    }
}

/// Replay is strict: a call that is not the one the log recorded at its
/// position, or a call past the log's end, gets no result, and the
/// divergence names that position; the recorded call gets the recorded
/// result.
pub proof fn law_replay_strict(
    log: Seq<crate::wire::value::RecordV>,
    position: nat,
    tool: Seq<char>,
    args: Val,
)
    ensures
        (position < log.len() && log[position as int].tool == tool && log[position as int].args == args)
            <==> replay_spec(log, position, tool, args) is Ok,
        replay_spec(log, position, tool, args) matches Ok(res) ==> res == log[position as int].result,
        replay_spec(log, position, tool, args) matches Err(d) ==> divergence_position(d) == position,
{
}

} // verus!
