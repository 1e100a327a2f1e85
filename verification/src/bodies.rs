//! Closed body field sets: the members of an actor declaration, the
//! fields of a supervisor declaration, and the fields of a child spec.
//!
//! Each body accepts a fixed set of field names. Gathering a body's fields
//! in order reports an unknown name, reports a repeated one against its
//! first occurrence, and keeps the position of each first occurrence.
use vstd::prelude::*;

use crate::diag::{diag_v, diags_v, CheckCode, CheckDiagnostic, DiagV, Severity, Span};
use crate::names::span_at;
use crate::namespaces::name_span;
use crate::registry::{find_last, keyed, lemma_keyed_last, lemma_keyed_push};
use crate::select::{first_text, upto, Sel};
use crate::syntax::{SyntaxKind, Tree};

verus! {

/// An error diagnostic with no related locations.
pub open spec fn err(code: CheckCode, span: Span, message: Seq<char>) -> DiagV {
    DiagV { code, severity: Severity::Error, span, message, related: Seq::empty() }
}

/// Builds `prefix`, `a`, `mid`, `b`, `suffix` into one string.
pub(crate) fn message5(prefix: &str, a: &str, mid: &str, b: &str, suffix: &str) -> (r: String)
    ensures
        r@ == prefix@ + a@ + mid@ + b@ + suffix@,
{
    let mut m = String::new();
    m.append(prefix);
    m.append(a);
    m.append(mid);
    m.append(b);
    m.append(suffix);
    proof {
        assert(m@ =~= prefix@ + a@ + mid@ + b@ + suffix@);
    }
    m
}

/// Builds `prefix`, `a`, `suffix` into one string.
pub(crate) fn message3(prefix: &str, a: &str, suffix: &str) -> (r: String)
    ensures
        r@ == prefix@ + a@ + suffix@,
{
    let mut m = String::new();
    m.append(prefix);
    m.append(a);
    m.append(suffix);
    proof {
        assert(m@ =~= prefix@ + a@ + suffix@);
    }
    m
}

// ── closed field sets ───────────────────────────────────────────

/// Which body a field belongs to.
#[derive(Debug, Clone, Copy, PartialEq, Eq, Structural)]
pub enum Body {
    /// A supervisor declaration's body.
    Supervisor,
    /// A child spec record.
    Child,
    /// An actor declaration's members.
    Actor,
}

/// The code a body's field diagnostics carry.
pub open spec fn body_code(b: Body) -> CheckCode {
    match b {
        Body::Actor => CheckCode::C0035,
        _ => CheckCode::C0046,
    }
}

/// A field's name: a supervisor field's first identifier, or the record
/// field's first token before its `:`.
pub open spec fn body_field_name(b: Body, f: Tree) -> Option<Seq<char>> {
    match b {
        Body::Child => first_text(upto(f.kids(), SyntaxKind::COLON), Sel::NonTrivia),
        _ => first_text(f.kids(), Sel::Token(SyntaxKind::IDENT)),
    }
}

/// Where a field's diagnostics point: a supervisor field's or actor
/// member's name, or the whole `name: value` of a record field (whose name
/// may be a keyword).
pub open spec fn body_field_span(b: Body, f: Tree, id: u32) -> Span {
    match b {
        Body::Child => span_at(f.range(), id),
        _ => name_span(f, id),
    }
}

/// Whether `n` names a field of the body.
pub open spec fn body_allows(b: Body, n: Seq<char>) -> bool {
    match b {
        Body::Supervisor => n == "strategy"@ || n == "intensity"@ || n == "period"@ || n == "children"@,
        Body::Child => n == "id"@ || n == "actor"@ || n == "start_args"@ || n == "restart"@,
        Body::Actor => n == "state"@ || n == "message"@ || n == "init"@,
    }
}

/// The message for a field `n` the body does not have.
pub open spec fn unknown_field_message(b: Body, sup: Seq<char>, n: Seq<char>) -> Seq<char> {
    match b {
        Body::Supervisor => "supervisor `"@ + sup + "` has no field `"@ + n
            + "`; expected `strategy`, `intensity`, `period`, or `children`"@,
        Body::Child => "a child of supervisor `"@ + sup + "` has no field `"@ + n
            + "`; expected `id`, `actor`, `start_args`, or `restart`"@,
        Body::Actor => "actor `"@ + sup + "` has no member `"@ + n
            + "`; expected `state`, `message`, `init`, or `handle`"@,
    }
}

/// The message for a field `n` given twice.
pub open spec fn twice_message(b: Body, sup: Seq<char>, n: Seq<char>) -> Seq<char> {
    match b {
        Body::Supervisor => "supervisor `"@ + sup + "` declares `"@ + n + "` twice"@,
        Body::Child => "a child of supervisor `"@ + sup + "` declares `"@ + n + "` twice"@,
        Body::Actor => "actor `"@ + sup + "` declares `"@ + n + "` twice"@,
    }
}

/// The fields of a body gathered so far: what was reported, where each
/// kept field's name is, and the position of each kept field.
pub struct GatherV {
    /// Diagnostics, in report order.
    pub diags: Seq<DiagV>,
    /// Where each kept field is.
    pub seen: Map<Seq<char>, Span>,
    /// The position of each kept field among the body's fields.
    pub kept: Map<Seq<char>, usize>,
}

/// Gathering one more field, at position `i`: an unknown name is
/// reported, a repeated one reported against the first, and a new one
/// kept.
pub open spec fn gather_step(b: Body, sup: Seq<char>, st: GatherV, f: Tree, i: usize, id: u32) -> GatherV {
    match body_field_name(b, f) {
        None => st,
        Some(n) => {
            let span = body_field_span(b, f, id);
            if !body_allows(b, n) {
                GatherV { diags: st.diags.push(err(body_code(b), span, unknown_field_message(b, sup, n))), ..st }
            } else if st.seen.contains_key(n) {
                GatherV {
                    diags: st.diags.push(
                        DiagV {
                            code: body_code(b),
                            severity: Severity::Error,
                            span,
                            message: twice_message(b, sup, n),
                            related: seq![(st.seen[n], "first declared here"@)],
                        },
                    ),
                    ..st
                }
            } else {
                GatherV { seen: st.seen.insert(n, span), kept: st.kept.insert(n, i), ..st }
            }
        },
    }
}

/// Gathering the fields `fs` of a body, in order.
pub open spec fn gather(b: Body, sup: Seq<char>, fs: Seq<Tree>, id: u32) -> GatherV
    decreases fs.len(),
{
    if fs.len() == 0 {
        GatherV { diags: Seq::empty(), seen: Map::empty(), kept: Map::empty() }
    } else {
        gather_step(b, sup, gather(b, sup, fs.drop_last(), id), fs.last(), (fs.len() - 1) as usize, id)
    }
}

/// Every kept field is one of the fields.
pub proof fn lemma_gather_kept(b: Body, sup: Seq<char>, fs: Seq<Tree>, id: u32)
    ensures
        forall|n: Seq<char>|
            #[trigger] gather(b, sup, fs, id).kept.contains_key(n) ==> gather(b, sup, fs, id).kept[n] < fs.len(),
    decreases fs.len(),
{
    if fs.len() > 0 {
        lemma_gather_kept(b, sup, fs.drop_last(), id);
        let g0 = gather(b, sup, fs.drop_last(), id);
        let g = gather(b, sup, fs, id);
        assert(g == gather_step(b, sup, g0, fs.last(), (fs.len() - 1) as usize, id));
        assert forall|n: Seq<char>| #[trigger] g.kept.contains_key(n) implies g.kept[n] < fs.len() by {
            if g0.kept.contains_key(n) {
                assert(g0.kept[n] < fs.len() - 1);
            }
        }
    }
}

/// One step of gathering, at run time: `seen` and `kept` are the keyed
/// tables of the state, and diagnostics go to `diags`.
pub(crate) fn gather_one(
    b: Body,
    sup: &str,
    name: Option<&str>,
    span: Span,
    i: usize,
    seen: &mut Vec<(String, Span)>,
    kept: &mut Vec<(String, usize)>,
    diags: &mut Vec<CheckDiagnostic>,
)
    ensures
        ({
            let st = GatherV { diags: diags_v(old(diags)@), seen: keyed(old(seen)@), kept: keyed(old(kept)@) };
            let nx = match name {
                None => st,
                Some(n) => if !body_allows(b, n@) {
                    GatherV { diags: st.diags.push(err(body_code(b), span, unknown_field_message(b, sup@, n@))), ..st }
                } else if st.seen.contains_key(n@) {
                    GatherV {
                        diags: st.diags.push(
                            DiagV {
                                code: body_code(b),
                                severity: Severity::Error,
                                span,
                                message: twice_message(b, sup@, n@),
                                related: seq![(st.seen[n@], "first declared here"@)],
                            },
                        ),
                        ..st
                    }
                } else {
                    GatherV { seen: st.seen.insert(n@, span), kept: st.kept.insert(n@, i), ..st }
                },
            };
            &&& diags_v(final(diags)@) == nx.diags
            &&& keyed(final(seen)@) == nx.seen
            &&& keyed(final(kept)@) == nx.kept
        }),
{
    let n = match name {
        Some(n) => n,
        None => return,
    };
    let ghost d0 = diags@;
    let s = crate::wire::replay::str_eq;
    let allowed = match b {
        Body::Supervisor => s(n, "strategy") || s(n, "intensity") || s(n, "period") || s(n, "children"),
        Body::Child => s(n, "id") || s(n, "actor") || s(n, "start_args") || s(n, "restart"),
        Body::Actor => s(n, "state") || s(n, "message") || s(n, "init"),
    };
    let code = match b {
        Body::Actor => CheckCode::C0035,
        _ => CheckCode::C0046,
    };
    if !allowed {
        let m = match b {
            Body::Supervisor => message5(
                "supervisor `",
                sup,
                "` has no field `",
                n,
                "`; expected `strategy`, `intensity`, `period`, or `children`",
            ),
            Body::Child => message5(
                "a child of supervisor `",
                sup,
                "` has no field `",
                n,
                "`; expected `id`, `actor`, `start_args`, or `restart`",
            ),
            Body::Actor => message5(
                "actor `",
                sup,
                "` has no member `",
                n,
                "`; expected `state`, `message`, `init`, or `handle`",
            ),
        };
        let d = CheckDiagnostic::error(code, span, m);
        diags.push(d);
        proof {
            assert(diag_v(d).related =~= Seq::<(Span, Seq<char>)>::empty());
            assert(diags_v(diags@) =~= diags_v(d0).push(diag_v(d)));
        }
        return;
    }
    match find_last(seen, n) {
        Some(k) => {
            proof {
                lemma_keyed_last(seen@, k as int, n@);
            }
            let first = seen[k].1;
            let m = match b {
                Body::Supervisor => message5("supervisor `", sup, "` declares `", n, "` twice"),
                Body::Child => message5("a child of supervisor `", sup, "` declares `", n, "` twice"),
                Body::Actor => message5("actor `", sup, "` declares `", n, "` twice"),
            };
            let d = CheckDiagnostic::error(code, span, m).with_related(
                first,
                String::from_str("first declared here"),
            );
            diags.push(d);
            proof {
                assert(diag_v(d).related =~= seq![(first, "first declared here"@)]);
                assert(diags_v(diags@) =~= diags_v(d0).push(diag_v(d)));
            }
        },
        None => {
            proof {
                lemma_keyed_last(seen@, -1, n@);
            }
            let k1 = String::from_str(n);
            let k2 = String::from_str(n);
            proof {
                lemma_keyed_push(seen@, (k1, span));
                lemma_keyed_push(kept@, (k2, i));
            }
            seen.push((k1, span));
            kept.push((k2, i));
        },
    }
}

} // verus!
