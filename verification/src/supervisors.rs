//! Supervisor declarations: the checks of their shape.
//!
//! A supervisor declares a restart `strategy`, an `intensity`/`period`
//! restart budget, and a list of `children`; each child is a record naming
//! an `id`, an `actor`, its `start_args`, and a `restart` disposition. The
//! body field sets are closed, duplicates are reported against the first
//! occurrence, and each field's value is validated. Only `one_for_one` is
//! implemented: `one_for_all` and `rest_for_one` are accepted with a
//! warning.
//!
//! Resolving a child's actor and typing its start arguments need the
//! declared actors and type inference; the checks here hand each child's
//! fields on for that.
use vstd::prelude::*;

use crate::ast::{
    opt_view, views, AstNode, Expr, Projection, RecordField, RecordLit, SupervisorDecl,
    SupervisorField,
};
use crate::bench::{parse_u64, parse_u64_exec};
use crate::diag::{diag_v, diags_v, CheckCode, CheckDiagnostic, DiagV, Severity, Span};
use crate::names::{expr_span, is_uppercase, name_token_span, node_span, span_at, uppercase};
use crate::checker::field_named;
use crate::bodies::{
    body_field_name, err, gather, gather_one, gather_step, lemma_gather_kept, message3, message5, Body, GatherV,
};
use crate::namespaces::name_span;
use crate::registry::{find_last, keyed, lemma_keyed_last, lemma_keyed_push};
use crate::select::{after, first, first_text, pick, text_of, Sel};
use crate::syntax::{SyntaxKind, Tree};
use crate::wire::text::chars_of;

verus! {

// ── single fields ───────────────────────────────────────────────

/// `s` with `d` appended when there is one.
pub open spec fn opt_push(s: Seq<DiagV>, d: Option<DiagV>) -> Seq<DiagV> {
    match d {
        Some(x) => s.push(x),
        None => s,
    }
}

/// The view of an optional diagnostic.
pub open spec fn opt_diag(d: Option<CheckDiagnostic>) -> Option<DiagV> {
    match d {
        Some(x) => Some(diag_v(x)),
        None => None,
    }
}

/// The value of a body field: the first expression after its `:`.
pub open spec fn value_of(f: Tree) -> Option<Tree> {
    first(after(f.kids(), SyntaxKind::COLON), Sel::Expr)
}

/// Whether the expression `t` is a bare name.
pub open spec fn is_name(t: Tree) -> bool {
    t is Token && t.kind() == SyntaxKind::IDENT
}

/// What a `strategy` field with value `v` reports: a value that is not a
/// name, or names no strategy, is an error; `one_for_all` and
/// `rest_for_one` warn as not implemented.
pub open spec fn strategy_diag(sup: Seq<char>, v: Option<Tree>, id: u32) -> Option<DiagV> {
    match v {
        None => None,
        Some(t) => {
            let span = span_at(t.range(), id);
            let s = text_of(t);
            if !is_name(t) {
                Some(
                    err(
                        CheckCode::C0046,
                        span,
                        "supervisor `"@ + sup
                            + "`'s `strategy` must be one of `one_for_one`, `one_for_all`, or `rest_for_one`"@,
                    ),
                )
            } else if !(s == "one_for_one"@ || s == "one_for_all"@ || s == "rest_for_one"@) {
                Some(
                    err(
                        CheckCode::C0046,
                        span,
                        "supervisor `"@ + sup + "` has unknown restart strategy `"@ + s
                            + "`; expected `one_for_one`, `one_for_all`, or `rest_for_one`"@,
                    ),
                )
            } else if s != "one_for_one"@ {
                Some(
                    DiagV {
                        code: CheckCode::C0050,
                        severity: Severity::Warning,
                        span,
                        message: "restart strategy `"@ + s
                            + "` is not implemented yet; only `one_for_one` is supported"@,
                        related: Seq::empty(),
                    },
                )
            } else {
                None
            }
        },
    }
}

/// The three documented restart strategies are all known: a bare
/// `one_for_one`, `one_for_all` or `rest_for_one` never draws the
/// unknown-strategy error C0046. Only `one_for_one` is implemented, so the
/// other two draw exactly the C0050 warning, and `one_for_one` nothing.
pub proof fn law_documented_strategies(sup: Seq<char>, t: Tree, id: u32)
    requires
        is_name(t),
        text_of(t) == "one_for_one"@ || text_of(t) == "one_for_all"@ || text_of(t) == "rest_for_one"@,
    ensures
        strategy_diag(sup, Some(t), id) is Some <==> text_of(t) != "one_for_one"@,
        strategy_diag(sup, Some(t), id) matches Some(d) ==> d.code != CheckCode::C0046 && d.code
            == CheckCode::C0050 && d.severity == Severity::Warning && d.message == "restart strategy `"@
            + text_of(t) + "` is not implemented yet; only `one_for_one` is supported"@,
{
    reveal_strlit("one_for_one");
    reveal_strlit("one_for_all");
    reveal_strlit("rest_for_one");
}

/// A strategy that is not a bare name, or a bare name other than the
/// three documented ones, draws the C0046 error.
pub proof fn law_unknown_strategy_is_an_error(sup: Seq<char>, t: Tree, id: u32)
    requires
        !is_name(t) || !(text_of(t) == "one_for_one"@ || text_of(t) == "one_for_all"@ || text_of(t)
            == "rest_for_one"@),
    ensures
        strategy_diag(sup, Some(t), id) matches Some(d) && d.code == CheckCode::C0046 && d.severity
            == Severity::Error,
{
}

/// Whether `t` is an integer literal whose text parses as a positive
/// `u32`.
pub open spec fn positive_u32(t: Tree) -> bool {
    &&& t is Token
    &&& t.kind() == SyntaxKind::INT
    &&& parse_u64(text_of(t)) matches Some(n) && 0 < n <= u32::MAX
}

/// What an `intensity` or `period` field (`what`) reports: its absence at
/// the declaration, or a value that is not a positive integer.
pub open spec fn positive_int_diag(
    sup: Seq<char>,
    field: Option<Tree>,
    what: Seq<char>,
    decl_span: Span,
    id: u32,
) -> Option<DiagV> {
    match field {
        None => Some(
            err(CheckCode::C0046, decl_span, "supervisor `"@ + sup + "` is missing its `"@ + what + "` field"@),
        ),
        Some(f) => match value_of(f) {
            None => None,
            Some(t) => if positive_u32(t) {
                None
            } else {
                Some(
                    err(
                        CheckCode::C0046,
                        span_at(t.range(), id),
                        "supervisor `"@ + sup + "`'s `"@ + what + "` must be a positive integer"@,
                    ),
                )
            },
        },
    }
}

/// What a child's `restart` field reports: a value that names no restart
/// disposition.
pub open spec fn restart_diag(sup: Seq<char>, child: Seq<char>, field: Option<Tree>, id: u32) -> Option<DiagV> {
    match field {
        None => None,
        Some(f) => match value_of(f) {
            None => None,
            Some(t) => {
                let s = text_of(t);
                if is_name(t) && (s == "permanent"@ || s == "temporary"@ || s == "transient"@) {
                    None
                } else {
                    Some(
                        err(
                            CheckCode::C0046,
                            span_at(t.range(), id),
                            "supervisor `"@ + sup + "`'s child `"@ + child
                                + "` has invalid `restart`; expected `permanent`, `temporary`, or `transient`"@,
                        ),
                    )
                }
            },
        },
    }
}

/// What a child's `id` field gives against the ids `ids` taken so far:
/// the id when it is a bare lowercase name not taken yet, what it reports
/// otherwise, and the ids taken after it.
pub open spec fn child_id_v(sup: Seq<char>, field: Option<Tree>, ids: Map<Seq<char>, Span>, id: u32) -> (
    Option<Seq<char>>,
    Option<DiagV>,
    Map<Seq<char>, Span>,
) {
    match field {
        None => (None, None, ids),
        Some(f) => match value_of(f) {
            None => (None, None, ids),
            Some(t) => {
                let span = span_at(t.range(), id);
                let s = text_of(t);
                if !is_name(t) {
                    (
                        None,
                        Some(
                            err(
                                CheckCode::C0046,
                                span,
                                "supervisor `"@ + sup + "`'s child `id` must be a bare identifier"@,
                            ),
                        ),
                        ids,
                    )
                } else if s.len() > 0 && uppercase(s[0]) {
                    (
                        None,
                        Some(
                            err(
                                CheckCode::C0046,
                                span,
                                "supervisor `"@ + sup + "`'s child `id` `"@ + s + "` must be lowercase"@,
                            ),
                        ),
                        ids,
                    )
                } else if ids.contains_key(s) {
                    (
                        None,
                        Some(
                            DiagV {
                                code: CheckCode::C0046,
                                severity: Severity::Error,
                                span,
                                message: "supervisor `"@ + sup + "` declares two children with id `"@ + s + "`"@,
                                related: seq![(ids[s], "first declared here"@)],
                            },
                        ),
                        ids,
                    )
                } else {
                    (Some(s), None, ids.insert(s, span))
                }
            },
        },
    }
}

/// Checks a `strategy` field names a known strategy; `one_for_all` and
/// `rest_for_one` warn as not implemented.
pub fn check_strategy(sup: &str, field: &SupervisorField, source_id: u32) -> (r: Option<CheckDiagnostic>)
    ensures
        opt_diag(r) == strategy_diag(sup@, value_of(field@), source_id),
{
    let value = match field.value() {
        Some(v) => v,
        None => return None,
    };
    let span = expr_span(&value, source_id);
    let strategy = match &value {
        Expr::Name(n) => n.text(),
        _ => {
            let m = message3(
                "supervisor `",
                sup,
                "`'s `strategy` must be one of `one_for_one`, `one_for_all`, or `rest_for_one`",
            );
            let d = CheckDiagnostic::error(CheckCode::C0046, span, m);
            proof {
                assert(diag_v(d).related =~= Seq::<(Span, Seq<char>)>::empty());
            }
            return Some(d);
        },
    };
    let s = crate::wire::replay::str_eq;
    if !(s(strategy, "one_for_one") || s(strategy, "one_for_all") || s(strategy, "rest_for_one")) {
        let m = message5(
            "supervisor `",
            sup,
            "` has unknown restart strategy `",
            strategy,
            "`; expected `one_for_one`, `one_for_all`, or `rest_for_one`",
        );
        let d = CheckDiagnostic::error(CheckCode::C0046, span, m);
        proof {
            assert(diag_v(d).related =~= Seq::<(Span, Seq<char>)>::empty());
        }
        Some(d)
    } else if !s(strategy, "one_for_one") {
        let m = message3(
            "restart strategy `",
            strategy,
            "` is not implemented yet; only `one_for_one` is supported",
        );
        let d = CheckDiagnostic::warning(CheckCode::C0050, span, m);
        proof {
            assert(diag_v(d).related =~= Seq::<(Span, Seq<char>)>::empty());
        }
        Some(d)
    } else {
        None
    }
}

/// Checks an `intensity` or `period` field (`what`) is a positive integer
/// literal; a missing field is reported at the declaration.
pub fn check_positive_int(
    sup: &str,
    field: Option<&SupervisorField>,
    what: &str,
    decl_span: Span,
    source_id: u32,
) -> (r: Option<CheckDiagnostic>)
    ensures
        opt_diag(r) == positive_int_diag(
            sup@,
            match field {
                Some(f) => Some(f@),
                None => None,
            },
            what@,
            decl_span,
            source_id,
        ),
{
    let field = match field {
        Some(f) => f,
        None => {
            let m = message5("supervisor `", sup, "` is missing its `", what, "` field");
            let d = CheckDiagnostic::error(CheckCode::C0046, decl_span, m);
            proof {
                assert(diag_v(d).related =~= Seq::<(Span, Seq<char>)>::empty());
            }
            return Some(d);
        },
    };
    let value = match field.value() {
        Some(v) => v,
        None => return None,
    };
    let span = expr_span(&value, source_id);
    let valid = match &value {
        Expr::Literal(lit) => {
            if lit.kind() == SyntaxKind::INT {
                let cs = chars_of(lit.text());
                match parse_u64_exec(cs.as_slice()) {
                    Some(n) => 0 < n && n <= 0xffff_ffffu64,
                    None => false,
                }
            } else {
                false
            }
        },
        _ => false,
    };
    if valid {
        None
    } else {
        let m = message5("supervisor `", sup, "`'s `", what, "` must be a positive integer");
        let d = CheckDiagnostic::error(CheckCode::C0046, span, m);
        proof {
            assert(diag_v(d).related =~= Seq::<(Span, Seq<char>)>::empty());
        }
        Some(d)
    }
}

/// Checks a child's `restart` field names a restart disposition.
pub fn check_restart(sup: &str, child: &str, field: Option<&RecordField>, source_id: u32) -> (r: Option<
    CheckDiagnostic,
>)
    ensures
        opt_diag(r) == restart_diag(
            sup@,
            child@,
            match field {
                Some(f) => Some(f@),
                None => None,
            },
            source_id,
        ),
{
    let value = match field {
        Some(f) => match f.value() {
            Some(v) => v,
            None => return None,
        },
        None => return None,
    };
    let span = expr_span(&value, source_id);
    let s = crate::wire::replay::str_eq;
    let valid = match &value {
        Expr::Name(r) => s(r.text(), "permanent") || s(r.text(), "temporary") || s(r.text(), "transient"),
        _ => false,
    };
    if valid {
        None
    } else {
        let m = message5(
            "supervisor `",
            sup,
            "`'s child `",
            child,
            "` has invalid `restart`; expected `permanent`, `temporary`, or `transient`",
        );
        let d = CheckDiagnostic::error(CheckCode::C0046, span, m);
        proof {
            assert(diag_v(d).related =~= Seq::<(Span, Seq<char>)>::empty());
        }
        Some(d)
    }
}

/// Checks a child's `id` is a bare lowercase identifier, unique within the
/// supervisor; returns the id when valid, recording it in `ids`, and
/// reports to `diags` otherwise.
pub fn check_child_id(
    sup: &str,
    field: Option<&RecordField>,
    ids: &mut Vec<(String, Span)>,
    diags: &mut Vec<CheckDiagnostic>,
    source_id: u32,
) -> (r: Option<String>)
    ensures
        ({
            let (v, d, m) = child_id_v(
                sup@,
                match field {
                    Some(f) => Some(f@),
                    None => None,
                },
                keyed(old(ids)@),
                source_id,
            );
            &&& opt_string(r) == v
            &&& diags_v(final(diags)@) == opt_push(diags_v(old(diags)@), d)
            &&& keyed(final(ids)@) == m
        }),
{
    let value = match field {
        Some(f) => match f.value() {
            Some(v) => v,
            None => return None,
        },
        None => return None,
    };
    let span = expr_span(&value, source_id);
    let ghost d0 = diags@;
    let text = match &value {
        Expr::Name(n) => n.text(),
        _ => {
            let m = message3("supervisor `", sup, "`'s child `id` must be a bare identifier");
            let d = CheckDiagnostic::error(CheckCode::C0046, span, m);
            diags.push(d);
            proof {
                assert(diag_v(d).related =~= Seq::<(Span, Seq<char>)>::empty());
                assert(diags_v(diags@) =~= diags_v(d0).push(diag_v(d)));
            }
            return None;
        },
    };
    let cs = chars_of(text);
    if cs.len() > 0 && is_uppercase(cs[0]) {
        let m = message5("supervisor `", sup, "`'s child `id` `", text, "` must be lowercase");
        let d = CheckDiagnostic::error(CheckCode::C0046, span, m);
        diags.push(d);
        proof {
            assert(diag_v(d).related =~= Seq::<(Span, Seq<char>)>::empty());
            assert(diags_v(diags@) =~= diags_v(d0).push(diag_v(d)));
        }
        return None;
    }
    match find_last(ids, text) {
        Some(k) => {
            proof {
                lemma_keyed_last(ids@, k as int, text@);
            }
            let first = ids[k].1;
            let m = message5("supervisor `", sup, "` declares two children with id `", text, "`");
            let d = CheckDiagnostic::error(CheckCode::C0046, span, m).with_related(
                first,
                String::from_str("first declared here"),
            );
            diags.push(d);
            proof {
                assert(diag_v(d).related =~= seq![(first, "first declared here"@)]);
                assert(diags_v(diags@) =~= diags_v(d0).push(diag_v(d)));
            }
            None
        },
        None => {
            proof {
                lemma_keyed_last(ids@, -1, text@);
            }
            let key = String::from_str(text);
            proof {
                lemma_keyed_push(ids@, (key, span));
            }
            ids.push((key, span));
            proof {
                assert(diags_v(diags@) =~= diags_v(d0));
            }
            Some(String::from_str(text))
        },
    }
}

/// The view of an optional string.
pub open spec fn opt_string(s: Option<String>) -> Option<Seq<char>> {
    match s {
        Some(x) => Some(x@),
        None => None,
    }
}


/// Gathers a supervisor's body fields, enforcing the closed set and
/// reporting repeats against the first occurrence; returns the position of
/// each kept field.
pub fn gather_supervisor_fields(
    sup: &str,
    fields: &Vec<SupervisorField>,
    diags: &mut Vec<CheckDiagnostic>,
    source_id: u32,
) -> (r: Vec<(String, usize)>)
    ensures
        ({
            let g = gather(Body::Supervisor, sup@, views(fields@), source_id);
            &&& diags_v(final(diags)@) == diags_v(old(diags)@) + g.diags
            &&& keyed(r@) == g.kept
        }),
{
    let mut seen: Vec<(String, Span)> = Vec::new();
    let mut kept: Vec<(String, usize)> = Vec::new();
    let ghost d0 = diags_v(diags@);
    let ghost fs = views(fields@);
    let mut i: usize = 0;
    proof {
        assert(diags_v(diags@) =~= d0 + Seq::<DiagV>::empty());
    }
    while i < fields.len()
        invariant
            i <= fields@.len(),
            fs == views(fields@),
            ({
                let g = gather(Body::Supervisor, sup@, fs.take(i as int), source_id);
                &&& diags_v(diags@) == d0 + g.diags
                &&& keyed(seen@) == g.seen
                &&& keyed(kept@) == g.kept
            }),
        decreases fields@.len() - i,
    {
        let ghost g0 = gather(Body::Supervisor, sup@, fs.take(i as int), source_id);
        let ghost before = diags@;
        proof {
            assert(fs.take(i + 1).drop_last() =~= fs.take(i as int));
            assert(fs.take(i + 1).last() == fields@[i as int]@);
        }
        let f = &fields[i];
        let name = f.name();
        let span = name_token_span(f.syntax(), source_id);
        gather_one(Body::Supervisor, sup, name, span, i, &mut seen, &mut kept, diags);
        proof {
            let g1 = gather(Body::Supervisor, sup@, fs.take(i + 1), source_id);
            assert(g1 == gather_step(Body::Supervisor, sup@, g0, fields@[i as int]@, i, source_id));
            if g1.diags.len() > g0.diags.len() {
                assert(d0 + g1.diags =~= (d0 + g0.diags).push(g1.diags.last()));
            } else {
                assert(g1.diags == g0.diags);
            }
        }
        i = i + 1;
    }
    proof {
        assert(fs.take(i as int) =~= fs);
    }
    kept
}

/// Gathers a child spec's fields, enforcing the closed set and reporting
/// repeats against the first occurrence; returns the position of each
/// kept field.
pub fn gather_child_fields(
    sup: &str,
    fields: &Vec<RecordField>,
    diags: &mut Vec<CheckDiagnostic>,
    source_id: u32,
) -> (r: Vec<(String, usize)>)
    ensures
        ({
            let g = gather(Body::Child, sup@, views(fields@), source_id);
            &&& diags_v(final(diags)@) == diags_v(old(diags)@) + g.diags
            &&& keyed(r@) == g.kept
        }),
{
    let mut seen: Vec<(String, Span)> = Vec::new();
    let mut kept: Vec<(String, usize)> = Vec::new();
    let ghost d0 = diags_v(diags@);
    let ghost fs = views(fields@);
    let mut i: usize = 0;
    proof {
        assert(diags_v(diags@) =~= d0 + Seq::<DiagV>::empty());
    }
    while i < fields.len()
        invariant
            i <= fields@.len(),
            fs == views(fields@),
            ({
                let g = gather(Body::Child, sup@, fs.take(i as int), source_id);
                &&& diags_v(diags@) == d0 + g.diags
                &&& keyed(seen@) == g.seen
                &&& keyed(kept@) == g.kept
            }),
        decreases fields@.len() - i,
    {
        let ghost g0 = gather(Body::Child, sup@, fs.take(i as int), source_id);
        proof {
            assert(fs.take(i + 1).drop_last() =~= fs.take(i as int));
            assert(fs.take(i + 1).last() == fields@[i as int]@);
        }
        let f = &fields[i];
        let name = f.name();
        let span = node_span(f.syntax(), source_id);
        gather_one(Body::Child, sup, name, span, i, &mut seen, &mut kept, diags);
        proof {
            let g1 = gather(Body::Child, sup@, fs.take(i + 1), source_id);
            assert(g1 == gather_step(Body::Child, sup@, g0, fields@[i as int]@, i, source_id));
            if g1.diags.len() > g0.diags.len() {
                assert(d0 + g1.diags =~= (d0 + g0.diags).push(g1.diags.last()));
            } else {
                assert(g1.diags == g0.diags);
            }
        }
        i = i + 1;
    }
    proof {
        assert(fs.take(i as int) =~= fs);
    }
    kept
}


// ── child specs ─────────────────────────────────────────────────

/// The field kept under `name`, if any.
pub open spec fn kept_field(fs: Seq<Tree>, kept: Map<Seq<char>, usize>, name: Seq<char>) -> Option<Tree> {
    if kept.contains_key(name) {
        Some(fs[kept[name] as int])
    } else {
        None
    }
}

/// The position of the field kept under `name`, if any.
pub open spec fn kept_index(kept: Map<Seq<char>, usize>, name: Seq<char>) -> Option<usize> {
    if kept.contains_key(name) {
        Some(kept[name])
    } else {
        None
    }
}

/// What a child spec missing its `what` field reports at `span`.
pub open spec fn missing_child_field(sup: Seq<char>, kept: Map<Seq<char>, usize>, span: Span, what: Seq<char>) -> Seq<
    DiagV,
> {
    if kept.contains_key(what) {
        Seq::empty()
    } else {
        seq![err(CheckCode::C0046, span, "a child of supervisor `"@ + sup + "` is missing its `"@ + what + "` field"@)]
    }
}

/// A child spec as the shape checks leave it: its label (its id, or
/// `<child>`), its fields, and the positions of its `actor` and
/// `start_args` fields.
pub struct ChildV {
    /// The id, or `<child>` when the id is invalid.
    pub label: Seq<char>,
    /// The record's fields.
    pub fields: Seq<Tree>,
    /// Position of the `actor` field.
    pub actor: Option<usize>,
    /// Position of the `start_args` field.
    pub start_args: Option<usize>,
}

/// The label of a child whose id check gave `id`.
pub open spec fn child_label(id: Option<Seq<char>>) -> Seq<char> {
    match id {
        Some(s) => s,
        None => "<child>"@,
    }
}

/// What the child spec `spec` reports against the ids taken so far, the
/// ids taken after it, and what it leaves for resolving its actor and
/// typing its start arguments: the closed field set, every required field
/// present, a valid unique id, and a valid restart disposition.
pub open spec fn child_spec_v(sup: Seq<char>, spec: Tree, ids: Map<Seq<char>, Span>, id: u32) -> (
    Seq<DiagV>,
    Map<Seq<char>, Span>,
    ChildV,
) {
    let fs = pick(spec.kids(), Sel::Node(SyntaxKind::RECORD_FIELD));
    let g = gather(Body::Child, sup, fs, id);
    let span = span_at(spec.range(), id);
    let missing = missing_child_field(sup, g.kept, span, "id"@) + missing_child_field(sup, g.kept, span, "actor"@)
        + missing_child_field(sup, g.kept, span, "start_args"@) + missing_child_field(
        sup,
        g.kept,
        span,
        "restart"@,
    );
    let (cid, idd, ids2) = child_id_v(sup, kept_field(fs, g.kept, "id"@), ids, id);
    let label = child_label(cid);
    let rd = restart_diag(sup, label, kept_field(fs, g.kept, "restart"@), id);
    (
        opt_push(opt_push(g.diags + missing, idd), rd),
        ids2,
        ChildV { label, fields: fs, actor: kept_index(g.kept, "actor"@), start_args: kept_index(g.kept, "start_args"@) },
    )
}

/// A child spec left for resolving its actor and typing its start
/// arguments.
#[derive(Debug)]
pub struct ChildSpec {
    /// The id, or `<child>` when the id is invalid.
    pub label: String,
    /// The record's fields.
    pub fields: Vec<RecordField>,
    /// Position of the `actor` field among `fields`.
    pub actor: Option<usize>,
    /// Position of the `start_args` field among `fields`.
    pub start_args: Option<usize>,
}

impl View for ChildSpec {
    type V = ChildV;

    open spec fn view(&self) -> ChildV {
        ChildV { label: self.label@, fields: views(self.fields@), actor: self.actor, start_args: self.start_args }
    }
}

/// The position of the field kept under `name`.
fn kept_at(kept: &Vec<(String, usize)>, name: &str) -> (r: Option<usize>)
    ensures
        r == kept_index(keyed(kept@), name@),
{
    match find_last(kept, name) {
        Some(k) => {
            proof {
                lemma_keyed_last(kept@, k as int, name@);
            }
            Some(kept[k].1)
        },
        None => {
            proof {
                lemma_keyed_last(kept@, -1, name@);
            }
            None
        },
    }
}

/// Reports a missing required child field `what`.
fn require_child_field(
    sup: &str,
    kept: &Vec<(String, usize)>,
    span: Span,
    what: &str,
    diags: &mut Vec<CheckDiagnostic>,
)
    ensures
        diags_v(final(diags)@) == diags_v(old(diags)@) + missing_child_field(sup@, keyed(kept@), span, what@),
{
    let ghost d0 = diags@;
    if kept_at(kept, what).is_none() {
        let m = message5("a child of supervisor `", sup, "` is missing its `", what, "` field");
        let d = CheckDiagnostic::error(CheckCode::C0046, span, m);
        diags.push(d);
        proof {
            assert(diag_v(d).related =~= Seq::<(Span, Seq<char>)>::empty());
            assert(diags_v(diags@) =~= diags_v(d0) + missing_child_field(sup@, keyed(kept@), span, what@));
        }
    } else {
        proof {
            assert(diags_v(diags@) =~= diags_v(d0) + missing_child_field(sup@, keyed(kept@), span, what@));
        }
    }
}

/// Checks one child spec's shape: the closed field set, every required
/// field present, a valid unique `id`, and a valid `restart`; the `actor`
/// and `start_args` fields are left for the checker.
pub fn check_child_spec(
    sup: &str,
    spec: &RecordLit,
    ids: &mut Vec<(String, Span)>,
    diags: &mut Vec<CheckDiagnostic>,
    source_id: u32,
) -> (r: ChildSpec)
    ensures
        ({
            let (d, m, c) = child_spec_v(sup@, spec@, keyed(old(ids)@), source_id);
            &&& diags_v(final(diags)@) == diags_v(old(diags)@) + d
            &&& keyed(final(ids)@) == m
            &&& r@ == c
        }),
{
    let ghost d0 = diags_v(diags@);
    let ghost ids0 = keyed(ids@);
    let span = node_span(spec.syntax(), source_id);
    let fields = spec.fields();
    let ghost fs = views(fields@);
    let kept = gather_child_fields(sup, &fields, diags, source_id);
    let ghost g = gather(Body::Child, sup@, fs, source_id);
    proof {
        lemma_gather_kept(Body::Child, sup@, fs, source_id);
    }
    let ghost d1 = diags_v(diags@);
    require_child_field(sup, &kept, span, "id", diags);
    require_child_field(sup, &kept, span, "actor", diags);
    require_child_field(sup, &kept, span, "start_args", diags);
    require_child_field(sup, &kept, span, "restart", diags);
    let ghost d2 = diags_v(diags@);
    let idf = match kept_at(&kept, "id") {
        Some(k) => {
            assert(kept_field(fs, g.kept, "id"@) == Some(fields@[k as int]@));
            Some(&fields[k])
        },
        None => None,
    };
    let cid = check_child_id(sup, idf, ids, diags, source_id);
    let ghost d3 = diags_v(diags@);
    let label = match &cid {
        Some(s) => s.clone(),
        None => String::from_str("<child>"),
    };
    proof {
        reveal_strlit("<child>");
    }
    let rf = match kept_at(&kept, "restart") {
        Some(k) => {
            assert(kept_field(fs, g.kept, "restart"@) == Some(fields@[k as int]@));
            Some(&fields[k])
        },
        None => None,
    };
    let rd = check_restart(sup, label.as_str(), rf, source_id);
    let ghost d4 = diags_v(diags@);
    if let Some(d) = rd {
        diags.push(d);
        proof {
            assert(diags_v(diags@) =~= d4.push(diag_v(d)));
        }
    }
    let actor = kept_at(&kept, "actor");
    let start_args = kept_at(&kept, "start_args");
    proof {
        let (d, m, c) = child_spec_v(sup@, spec@, ids0, source_id);
        assert(label@ == child_label(opt_string(cid)));
        assert(diags_v(diags@) =~= d0 + d);
    }
    ChildSpec { label, fields, actor, start_args }
}


// ── the children list ───────────────────────────────────────────

/// What the elements `elems` of a `children` list report, the ids they
/// take, and the child specs they leave: each element must be a record.
pub open spec fn children_v(sup: Seq<char>, elems: Seq<Tree>, id: u32) -> (
    Seq<DiagV>,
    Map<Seq<char>, Span>,
    Seq<ChildV>,
)
    decreases elems.len(),
{
    if elems.len() == 0 {
        (Seq::empty(), Map::empty(), Seq::empty())
    } else {
        let (d, ids, cs) = children_v(sup, elems.drop_last(), id);
        let e = elems.last();
        if e is Node && e.kind() == SyntaxKind::RECORD_LIT {
            let (d2, ids2, c) = child_spec_v(sup, e, ids, id);
            (d + d2, ids2, cs.push(c))
        } else {
            (
                d.push(
                    err(
                        CheckCode::C0046,
                        span_at(e.range(), id),
                        "a child of supervisor `"@ + sup + "` must be a record `{ id, actor, start_args, restart }`"@,
                    ),
                ),
                ids,
                cs,
            )
        }
    }
}

/// What a `children` field reports and the child specs it leaves: its
/// value must be a list of child-spec records.
pub open spec fn children_field_v(sup: Seq<char>, f: Tree, id: u32) -> (Seq<DiagV>, Seq<ChildV>) {
    match value_of(f) {
        None => (Seq::empty(), Seq::empty()),
        Some(v) => if v is Node && v.kind() == SyntaxKind::LIST_LIT {
            let (d, _, cs) = children_v(sup, pick(v.kids(), Sel::Expr), id);
            (d, cs)
        } else {
            (
                seq![
                    err(
                        CheckCode::C0046,
                        span_at(v.range(), id),
                        "supervisor `"@ + sup
                            + "`'s `children` must be a list of child specs, e.g. `[ { id: c, actor: A, start_args: e, restart: permanent } ]`"@,
                    ),
                ],
                Seq::empty(),
            )
        },
    }
}

/// The views of child specs.
pub open spec fn children_views(s: Seq<ChildSpec>) -> Seq<ChildV> {
    Seq::new(s.len(), |i: int| s[i]@)
}

/// Checks a `children` field is a list of child-spec records, checking
/// each spec's shape; returns the child specs left for the checker.
pub fn check_children(sup: &str, field: &SupervisorField, diags: &mut Vec<CheckDiagnostic>, source_id: u32) -> (r:
    Vec<ChildSpec>)
    ensures
        ({
            let (d, cs) = children_field_v(sup@, field@, source_id);
            &&& diags_v(final(diags)@) == diags_v(old(diags)@) + d
            &&& children_views(r@) == cs
        }),
{
    let ghost d0 = diags_v(diags@);
    let mut specs: Vec<ChildSpec> = Vec::new();
    let value = match field.value() {
        Some(v) => v,
        None => {
            proof {
                assert(diags_v(diags@) =~= d0 + Seq::<DiagV>::empty());
                assert(children_views(specs@) =~= Seq::<ChildV>::empty());
            }
            return specs;
        },
    };
    let list = match &value {
        Expr::List(l) => l,
        _ => {
            let m = message3(
                "supervisor `",
                sup,
                "`'s `children` must be a list of child specs, e.g. `[ { id: c, actor: A, start_args: e, restart: permanent } ]`",
            );
            let d = CheckDiagnostic::error(CheckCode::C0046, expr_span(&value, source_id), m);
            diags.push(d);
            proof {
                assert(diag_v(d).related =~= Seq::<(Span, Seq<char>)>::empty());
                assert(diags_v(diags@) =~= d0 + seq![diag_v(d)]);
                assert(children_views(specs@) =~= Seq::<ChildV>::empty());
            }
            return specs;
        },
    };
    let elems = list.elements();
    let ghost es = views(elems@);
    let mut ids: Vec<(String, Span)> = Vec::new();
    let mut i: usize = 0;
    proof {
        assert(es.take(0) =~= Seq::<Tree>::empty());
        assert(diags_v(diags@) =~= d0 + Seq::<DiagV>::empty());
        assert(children_views(specs@) =~= Seq::<ChildV>::empty());
    }
    while i < elems.len()
        invariant
            i <= elems@.len(),
            es == views(elems@),
            crate::ast::all_wf(elems@),
            ({
                let (d, m, cs) = children_v(sup@, es.take(i as int), source_id);
                &&& diags_v(diags@) == d0 + d
                &&& keyed(ids@) == m
                &&& children_views(specs@) == cs
            }),
        decreases elems@.len() - i,
    {
        let ghost prev = children_v(sup@, es.take(i as int), source_id);
        let ghost before = diags_v(diags@);
        let ghost e = es[i as int];
        proof {
            assert(es.take(i + 1).drop_last() =~= es.take(i as int));
            assert(es.take(i + 1).last() == e);
            assert(elems@[i as int]@ == e);
            assert(elems@[i as int].wf());
        }
        match &elems[i] {
            Expr::Record(rec) => {
                let ghost s0 = specs@;
                let c = check_child_spec(sup, rec, &mut ids, diags, source_id);
                specs.push(c);
                proof {
                    let (d2, m2, c2) = child_spec_v(sup@, e, prev.1, source_id);
                    assert(diags_v(diags@) =~= d0 + (prev.0 + d2));
                    assert(children_views(specs@) =~= children_views(s0).push(c2));
                }
            },
            other => {
                let m = message3(
                    "a child of supervisor `",
                    sup,
                    "` must be a record `{ id, actor, start_args, restart }`",
                );
                let ghost raw = diags@;
                let d = CheckDiagnostic::error(CheckCode::C0046, expr_span(other, source_id), m);
                diags.push(d);
                proof {
                    assert(diag_v(d).related =~= Seq::<(Span, Seq<char>)>::empty());
                    assert(diags@ == raw.push(d));
                    assert(diags_v(diags@) =~= diags_v(raw).push(diag_v(d)));
                    assert(diags_v(raw) == d0 + prev.0);
                    assert(diags_v(diags@) =~= d0 + prev.0.push(diag_v(d)));
                }
            },
        }
        i = i + 1;
    }
    proof {
        assert(es.take(i as int) =~= es);
    }
    specs
}

// ── the declaration ─────────────────────────────────────────────

/// The supervisor field kept under `name`, if any.
pub open spec fn sup_field(fs: Seq<Tree>, g: GatherV, name: Seq<char>) -> Option<Tree> {
    kept_field(fs, g.kept, name)
}

/// What a supervisor declaration reports, and the child specs it leaves
/// for resolving actors and typing start arguments; `None` when it has
/// no name.
pub open spec fn supervisor_v(decl: Tree, id: u32) -> Option<(Seq<DiagV>, Seq<ChildV>)> {
    match first_text(decl.kids(), Sel::Token(SyntaxKind::IDENT)) {
        None => None,
        Some(name) => {
            let fs = pick(decl.kids(), Sel::Node(SyntaxKind::SUPERVISOR_FIELD));
            let g = gather(Body::Supervisor, name, fs, id);
            let decl_span = name_span(decl, id);
            let strategy = match sup_field(fs, g, "strategy"@) {
                Some(f) => opt_push(Seq::empty(), strategy_diag(name, value_of(f), id)),
                None => seq![
                    err(CheckCode::C0046, decl_span, "supervisor `"@ + name + "` is missing its `strategy` field"@),
                ],
            };
            let intensity = positive_int_diag(name, sup_field(fs, g, "intensity"@), "intensity"@, decl_span, id);
            let period = positive_int_diag(name, sup_field(fs, g, "period"@), "period"@, decl_span, id);
            let (children, cs) = match sup_field(fs, g, "children"@) {
                Some(f) => children_field_v(name, f, id),
                None => (
                    seq![
                        err(CheckCode::C0046, decl_span, "supervisor `"@ + name + "` is missing its `children` field"@),
                    ],
                    Seq::empty(),
                ),
            };
            Some((opt_push(opt_push(g.diags + strategy, intensity), period) + children, cs))
        },
    }
}

/// The supervisor field kept under `name`.
fn field_at<'a>(fields: &'a Vec<SupervisorField>, kept: &Vec<(String, usize)>, name: &str, g: Ghost<GatherV>) -> (r:
    Option<&'a SupervisorField>)
    requires
        keyed(kept@) == g@.kept,
        forall|n: Seq<char>| #[trigger] g@.kept.contains_key(n) ==> g@.kept[n] < fields@.len(),
    ensures
        match r {
            Some(f) => sup_field(views(fields@), g@, name@) == Some(f@),
            None => sup_field(views(fields@), g@, name@) is None,
        },
{
    match kept_at(kept, name) {
        Some(k) => Some(&fields[k]),
        None => None,
    }
}

/// Checks a supervisor declaration's shape: the closed field set, the
/// restart strategy, the `intensity`/`period` budget, and the children
/// list with each child spec. Returns the child specs left for resolving
/// their actors and typing their start arguments; `None` when the
/// declaration has no name.
#[verifier::spinoff_prover]
#[verifier::rlimit(50)]
pub fn check_supervisor(decl: &SupervisorDecl, diags: &mut Vec<CheckDiagnostic>, source_id: u32) -> (r: Option<
    Vec<ChildSpec>,
>)
    ensures
        match supervisor_v(decl@, source_id) {
            None => r is None && final(diags)@ == old(diags)@,
            Some((d, cs)) => r matches Some(v) && children_views(v@) == cs && diags_v(final(diags)@) == diags_v(
                old(diags)@,
            ) + d,
        },
{
    let name = match decl.name() {
        Some(n) => n,
        None => return None,
    };
    let ghost d0 = diags_v(diags@);
    let decl_span = name_token_span(decl.syntax(), source_id);
    let fields = decl.fields();
    let ghost fs = views(fields@);
    let kept = gather_supervisor_fields(name, &fields, diags, source_id);
    let ghost g = gather(Body::Supervisor, name@, fs, source_id);
    proof {
        lemma_gather_kept(Body::Supervisor, name@, fs, source_id);
    }
    let ghost d1 = diags_v(diags@);
    match field_at(&fields, &kept, "strategy", Ghost(g)) {
        Some(f) => {
            if let Some(d) = check_strategy(name, f, source_id) {
                diags.push(d);
                proof {
                    assert(diags_v(diags@) =~= d1.push(diag_v(d)));
                }
            }
        },
        None => {
            let m = message3("supervisor `", name, "` is missing its `strategy` field");
            let d = CheckDiagnostic::error(CheckCode::C0046, decl_span, m);
            diags.push(d);
            proof {
                assert(diag_v(d).related =~= Seq::<(Span, Seq<char>)>::empty());
                assert(diags_v(diags@) =~= d1.push(diag_v(d)));
            }
        },
    }
    let ghost d2 = diags_v(diags@);
    let intensity = field_at(&fields, &kept, "intensity", Ghost(g));
    if let Some(d) = check_positive_int(name, intensity, "intensity", decl_span, source_id) {
        diags.push(d);
        proof {
            assert(diags_v(diags@) =~= d2.push(diag_v(d)));
        }
    }
    let ghost d3 = diags_v(diags@);
    let period = field_at(&fields, &kept, "period", Ghost(g));
    if let Some(d) = check_positive_int(name, period, "period", decl_span, source_id) {
        diags.push(d);
        proof {
            assert(diags_v(diags@) =~= d3.push(diag_v(d)));
        }
    }
    let ghost d4 = diags_v(diags@);
    let children = match field_at(&fields, &kept, "children", Ghost(g)) {
        Some(f) => check_children(name, f, diags, source_id),
        None => {
            let m = message3("supervisor `", name, "` is missing its `children` field");
            let d = CheckDiagnostic::error(CheckCode::C0046, decl_span, m);
            diags.push(d);
            proof {
                assert(diag_v(d).related =~= Seq::<(Span, Seq<char>)>::empty());
                assert(diags_v(diags@) =~= d4 + seq![diag_v(d)]);
            }
            let none: Vec<ChildSpec> = Vec::new();
            proof {
                assert(children_views(none@) =~= Seq::<ChildV>::empty());
            }
            none
        },
    };
    proof {
        let (d, cs) = supervisor_v(decl@, source_id).unwrap();
        assert(diags_v(diags@) =~= d0 + d);
    }
    Some(children)
}


// ── the interface other declarations see ────────────────────────

/// The text of `v` when it is a bare name.
pub open spec fn name_text(v: Option<Tree>) -> Option<Seq<char>> {
    match v {
        Some(t) => if is_name(t) {
            Some(text_of(t))
        } else {
            None
        },
        None => None,
    }
}

/// The position of the first record field named `name`, from `k` on.
pub open spec fn record_field_named(fs: Seq<Tree>, name: Seq<char>, k: int) -> Option<int>
    decreases fs.len() - k,
{
    if 0 <= k < fs.len() {
        if body_field_name(Body::Child, fs[k]) == Some(name) {
            Some(k)
        } else {
            record_field_named(fs, name, k + 1)
        }
    } else {
        None
    }
}

/// The bare name the first field `name` of the record `rec` holds.
pub open spec fn record_name_value(rec: Tree, name: Seq<char>) -> Option<Seq<char>> {
    let fs = pick(rec.kids(), Sel::Node(SyntaxKind::RECORD_FIELD));
    match record_field_named(fs, name, 0) {
        Some(k) => name_text(value_of(fs[k])),
        None => None,
    }
}

/// The `(id, actor)` pairs of the child-spec records among `elems` that
/// name both as bare names, in order.
pub open spec fn child_pairs(elems: Seq<Tree>) -> Seq<(Seq<char>, Seq<char>)>
    decreases elems.len(),
{
    if elems.len() == 0 {
        Seq::empty()
    } else {
        let rest = child_pairs(elems.drop_last());
        let e = elems.last();
        if e is Node && e.kind() == SyntaxKind::RECORD_LIT {
            match (record_name_value(e, "id"@), record_name_value(e, "actor"@)) {
                (Some(i), Some(a)) => rest.push((i, a)),
                _ => rest,
            }
        } else {
            rest
        }
    }
}

/// The children a supervisor declares, as `(id, actor)` pairs: read from
/// the first `children` field, when it holds a list.
pub open spec fn declared_children(decl: Tree) -> Seq<(Seq<char>, Seq<char>)> {
    let fields = pick(decl.kids(), Sel::Node(SyntaxKind::SUPERVISOR_FIELD));
    match field_named(fields, "children"@, 0) {
        Some(k) => match value_of(fields[k]) {
            Some(v) => if v is Node && v.kind() == SyntaxKind::LIST_LIT {
                child_pairs(pick(v.kids(), Sel::Expr))
            } else {
                Seq::empty()
            },
            None => Seq::empty(),
        },
        None => Seq::empty(),
    }
}

/// A registered supervisor: the interface `supervise` and `child` resolve
/// against.
#[derive(Debug)]
pub struct SupervisorInfo {
    /// Declared children as `(id, actor name)` pairs, in source order.
    pub children: Vec<(String, String)>,
}

/// The views of `(id, actor)` pairs.
pub open spec fn pairs_v(s: Seq<(String, String)>) -> Seq<(Seq<char>, Seq<char>)> {
    Seq::new(s.len(), |i: int| (s[i].0@, s[i].1@))
}

/// The bare name the first field `name` of `rec` holds.
fn record_name(rec: &RecordLit, name: &str) -> (r: Option<String>)
    ensures
        opt_string(r) == record_name_value(rec@, name@),
{
    let fields = rec.fields();
    let ghost fs = views(fields@);
    let mut k: usize = 0;
    while k < fields.len()
        invariant
            k <= fields@.len(),
            fs == views(fields@),
            fs == pick(rec@.kids(), Sel::Node(SyntaxKind::RECORD_FIELD)),
            crate::ast::all_wf(fields@),
            record_field_named(fs, name@, 0) == record_field_named(fs, name@, k as int),
        decreases fields@.len() - k,
    {
        let f = &fields[k];
        assert(fs[k as int] == f@);
        let n = f.name();
        let matches = match n {
            Some(x) => crate::wire::replay::str_eq(x, name),
            None => false,
        };
        if matches {
            assert(record_field_named(fs, name@, k as int) == Some(k as int));
            let value = f.value();
            assert(opt_view(value) == value_of(fs[k as int]));
            return match value {
                Some(Expr::Name(v)) => {
                    assert(v.wf());
                    Some(String::from_str(v.text()))
                },
                Some(other) => {
                    assert(other.wf());
                    assert(!is_name(other@));
                    None
                },
                None => None,
            };
        }
        k = k + 1;
    }
    None
}

/// A supervisor's interface, registered before function checking so that
/// any body may `supervise` it and look up its children: its name and its
/// `(child id, actor)` pairs. Skims the declaration: malformed fields are
/// skipped here and reported by [`check_supervisor`].
pub fn register_supervisor(decl: &SupervisorDecl) -> (r: Option<(String, SupervisorInfo)>)
    ensures
        match first_text(decl@.kids(), Sel::Token(SyntaxKind::IDENT)) {
            None => r is None,
            Some(n) => r matches Some((name, info)) && name@ == n && pairs_v(info.children@) == declared_children(
                decl@,
            ),
        },
{
    let name = match decl.name() {
        Some(n) => n,
        None => return None,
    };
    let mut children: Vec<(String, String)> = Vec::new();
    let fields = decl.fields();
    let ghost fs = views(fields@);
    proof {
        reveal_strlit("children");
    }
    let mut k: usize = 0;
    while k < fields.len()
        invariant
            k <= fields@.len(),
            fs == views(fields@),
            field_named(fs, "children"@, 0) == field_named(fs, "children"@, k as int),
        ensures
            k <= fields@.len(),
            k < fields@.len() ==> field_named(fs, "children"@, 0) == Some(k as int),
            k == fields@.len() ==> field_named(fs, "children"@, 0) is None,
        decreases fields@.len() - k,
    {
        let f = &fields[k];
        assert(fs[k as int] == f@);
        let is_children = match f.name() {
            Some(x) => crate::wire::replay::str_eq(x, "children"),
            None => false,
        };
        if is_children {
            break;
        }
        k = k + 1;
    }
    if k < fields.len() {
        let value = fields[k].value();
        assert(opt_view(value) == value_of(fs[k as int]));
        if let Some(Expr::List(list)) = value {
            let elems = list.elements();
            let ghost es = views(elems@);
            let mut i: usize = 0;
            proof {
                assert(es.take(0) =~= Seq::<Tree>::empty());
                assert(pairs_v(children@) =~= Seq::<(Seq<char>, Seq<char>)>::empty());
            }
            while i < elems.len()
                invariant
                    i <= elems@.len(),
                    es == views(elems@),
                    crate::ast::all_wf(elems@),
                    pairs_v(children@) == child_pairs(es.take(i as int)),
                decreases elems@.len() - i,
            {
                proof {
                    assert(es.take(i + 1).drop_last() =~= es.take(i as int));
                    assert(es.take(i + 1).last() == elems@[i as int]@);
                    assert(elems@[i as int].wf());
                }
                if let Expr::Record(spec) = &elems[i] {
                    proof {
                        reveal_strlit("id");
                        reveal_strlit("actor");
                    }
                    let id = record_name(spec, "id");
                    let actor = record_name(spec, "actor");
                    match (id, actor) {
                        (Some(a), Some(b)) => {
                            let ghost c0 = children@;
                            children.push((a, b));
                            proof {
                                assert(pairs_v(children@) =~= pairs_v(c0).push((a@, b@)));
                            }
                        },
                        _ => {},
                    }
                }
                i = i + 1;
            }
            proof {
                assert(es.take(i as int) =~= es);
            }
        }
    }
    proof {
        assert(pairs_v(children@) == declared_children(decl@));
    }
    Some((String::from_str(name), SupervisorInfo { children }))
}

} // verus!
