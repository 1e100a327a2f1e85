//! Actor declarations: their member structure, the message type they
//! register, and how their handlers cover the message constructors.
//!
//! An actor declares exactly the members `state`, `message` and `init`,
//! each once, plus `handle` clauses. Each handler names one constructor of
//! the actor's message type, no constructor is handled twice, and every
//! constructor is handled. Elaborating member types and typing handler
//! bodies need type inference and are the checker's.
use vstd::prelude::*;

use crate::ast::{nth_view, views, ActorDecl, ActorField, ActorHandler, AstNode, Pattern, Projection};
use crate::bodies::{err, gather, gather_one, gather_step, message3, message5, Body};
use crate::checker::{actor_field, field_named, message_type_name, message_type_v};
use crate::diag::{diag_v, diags_v, CheckCode, CheckDiagnostic, DiagV, Severity, Span};
use crate::names::{name_token_span, node_span, span_at};
use crate::namespaces::name_span;
use crate::registry::{find_last, keyed, lemma_keyed_last, lemma_keyed_push, names_v, Registry, RegistryV, AdtV};
use crate::select::{first_text, pick, Sel};
use crate::syntax::{SyntaxKind, Tree};

verus! {

// ── members ─────────────────────────────────────────────────────

/// Gathers an actor's members, reporting unknown and repeated ones;
/// returns the position of each kept member.
pub fn gather_actor_members(
    actor: &str,
    fields: &Vec<ActorField>,
    diags: &mut Vec<CheckDiagnostic>,
    source_id: u32,
) -> (r: Vec<(String, usize)>)
    ensures
        ({
            let g = gather(Body::Actor, actor@, views(fields@), source_id);
            &&& diags_v(final(diags)@) == diags_v(old(diags)@) + g.diags
            &&& keyed(r@) == g.kept
        }),
{
    let mut seen: Vec<(String, Span)> = Vec::new();
    let mut kept: Vec<(String, usize)> = Vec::new();
    let ghost d0 = diags_v(diags@);
    let ghost fs = views(fields@);
    let mut i: usize = 0;
    proof {
        assert(diags_v(diags@) =~= d0 + Seq::<DiagV>::empty());
    }
    while i < fields.len()
        invariant
            i <= fields@.len(),
            fs == views(fields@),
            ({
                let g = gather(Body::Actor, actor@, fs.take(i as int), source_id);
                &&& diags_v(diags@) == d0 + g.diags
                &&& keyed(seen@) == g.seen
                &&& keyed(kept@) == g.kept
            }),
        decreases fields@.len() - i,
    {
        let ghost g0 = gather(Body::Actor, actor@, fs.take(i as int), source_id);
        proof {
            assert(fs.take(i + 1).drop_last() =~= fs.take(i as int));
            assert(fs.take(i + 1).last() == fields@[i as int]@);
        }
        let f = &fields[i];
        let name = f.name();
        let span = name_token_span(f.syntax(), source_id);
        gather_one(Body::Actor, actor, name, span, i, &mut seen, &mut kept, diags);
        proof {
            let g1 = gather(Body::Actor, actor@, fs.take(i + 1), source_id);
            assert(g1 == gather_step(Body::Actor, actor@, g0, fields@[i as int]@, i, source_id));
            if g1.diags.len() > g0.diags.len() {
                assert(d0 + g1.diags =~= (d0 + g0.diags).push(g1.diags.last()));
            } else {
                assert(g1.diags == g0.diags);
            }
        }
        i = i + 1;
    }
    proof {
        assert(fs.take(i as int) =~= fs);
    }
    kept
}

/// Validates an actor's member list: every member is one of `state`,
/// `message`, `init`, and none repeats. Returns whether it is valid.
pub fn check_actor_members(decl: &ActorDecl, actor: &str, diags: &mut Vec<CheckDiagnostic>, source_id: u32) -> (r:
    bool)
    ensures
        ({
            let g = gather(Body::Actor, actor@, pick(decl@.kids(), Sel::Node(SyntaxKind::ACTOR_FIELD)), source_id);
            &&& diags_v(final(diags)@) == diags_v(old(diags)@) + g.diags
            &&& r == (g.diags.len() == 0)
        }),
{
    let fields = decl.fields();
    let d0 = diags.len();
    let ghost old_v = diags_v(diags@);
    let _ = gather_actor_members(actor, &fields, diags, source_id);
    proof {
        assert(diags_v(diags@).len() == diags@.len());
        assert(old_v.len() == d0);
    }
    diags.len() == d0
}

/// The message for an actor missing its `what` member.
pub open spec fn missing_member_message(actor: Seq<char>, what: Seq<char>) -> Seq<char> {
    "actor `"@ + actor + "` is missing its `"@ + what + "` member"@
}

/// The member named `what` among an actor's members.
pub open spec fn member(decl: Tree, what: Seq<char>) -> Option<Tree> {
    let fields = pick(decl.kids(), Sel::Node(SyntaxKind::ACTOR_FIELD));
    match field_named(fields, what, 0) {
        Some(k) => Some(fields[k]),
        None => None,
    }
}

/// What an actor's member structure reports: its member list, then the
/// first of `message`, `state`, `init` it lacks; and its three members
/// when it is sound.
pub open spec fn actor_members_v(decl: Tree, actor: Seq<char>, id: u32) -> (Seq<DiagV>, Option<(Tree, Tree, Tree)>) {
    let g = gather(Body::Actor, actor, pick(decl.kids(), Sel::Node(SyntaxKind::ACTOR_FIELD)), id);
    let span = name_span(decl, id);
    if g.diags.len() > 0 {
        (g.diags, None)
    } else {
        match (member(decl, "message"@), member(decl, "state"@), member(decl, "init"@)) {
            (None, _, _) => (seq![err(CheckCode::C0035, span, missing_member_message(actor, "message"@))], None),
            (Some(_), None, _) => (seq![err(CheckCode::C0035, span, missing_member_message(actor, "state"@))], None),
            (Some(_), Some(_), None) => (seq![err(CheckCode::C0035, span, missing_member_message(actor, "init"@))], None),
            (Some(m), Some(s), Some(i)) => (Seq::empty(), Some((m, s, i))),
        }
    }
}

/// The `message`, `state` and `init` members of an actor, after checking
/// its member list and that each is present (the structural part of
/// registering an actor); `None` when one is missing or the list is
/// unsound, with the reports in `diags`.
pub fn actor_members(decl: &ActorDecl, actor: &str, diags: &mut Vec<CheckDiagnostic>, source_id: u32) -> (r: Option<
    (ActorField, ActorField, ActorField),
>)
    ensures
        ({
            let (d, ms) = actor_members_v(decl@, actor@, source_id);
            &&& diags_v(final(diags)@) == diags_v(old(diags)@) + d
            &&& match (r, ms) {
                (None, None) => true,
                (Some((m, s, i)), Some((mv, sv, iv))) => m@ == mv && s@ == sv && i@ == iv,
                _ => false,
            }
        }),
{
    let ghost d0 = diags_v(diags@);
    if !check_actor_members(decl, actor, diags, source_id) {
        return None;
    }
    proof {
        assert(diags_v(diags@) =~= d0);
        reveal_strlit("message");
        reveal_strlit("state");
        reveal_strlit("init");
    }
    let span = name_token_span(decl.syntax(), source_id);
    let message = actor_field(decl, "message");
    let state = actor_field(decl, "state");
    let init = actor_field(decl, "init");
    let what = if message.is_none() {
        "message"
    } else if state.is_none() {
        "state"
    } else if init.is_none() {
        "init"
    } else {
        proof {
            assert(diags_v(diags@) =~= d0 + Seq::<DiagV>::empty());
        }
        return Some((message.unwrap(), state.unwrap(), init.unwrap()));
    };
    let m = message5("actor `", actor, "` is missing its `", what, "` member");
    let d = CheckDiagnostic::error(CheckCode::C0035, span, m);
    diags.push(d);
    proof {
        assert(diag_v(d).related =~= Seq::<(Span, Seq<char>)>::empty());
        assert(diags_v(diags@) =~= d0 + seq![diag_v(d)]);
    }
    None
}

// ── the message type ────────────────────────────────────────────

/// The constructor names among constructor trees, skipping nameless ones.
pub open spec fn ctor_names(cs: Seq<Tree>) -> Seq<Seq<char>>
    decreases cs.len(),
{
    if cs.len() == 0 {
        Seq::empty()
    } else {
        let rest = ctor_names(cs.drop_last());
        match first_text(cs.last().kids(), Sel::Token(SyntaxKind::IDENT)) {
            Some(n) => rest.push(n),
            None => rest,
        }
    }
}

/// Registers an actor's message type as a type with no parameters and the
/// message constructors, so constructor fields anywhere, other actors'
/// messages included, can name it.
pub fn register_actor_message_header(registry: &mut Registry, decl: &ActorDecl)
    ensures
        match member(decl@, "message"@) {
            Some(f) => match message_type_v(f) {
                Some(n) => final(registry)@.adts == old(registry)@.adts.insert(
                    n,
                    AdtV { arity: 0, ctors: ctor_names(pick(f.kids(), Sel::Node(SyntaxKind::CONSTRUCTOR))) },
                ) && final(registry)@.ctors == old(registry)@.ctors && final(registry)@.effects == old(
                    registry,
                )@.effects,
                None => final(registry)@ == old(registry)@,
            },
            None => final(registry)@ == old(registry)@,
        },
{
    proof {
        reveal_strlit("message");
    }
    let field = match actor_field(decl, "message") {
        Some(f) => f,
        None => return,
    };
    let name = match message_type_name(&field) {
        Some(n) => n,
        None => return,
    };
    let ctors = field.constructors();
    let ghost cs = views(ctors@);
    let mut names: Vec<String> = Vec::new();
    let mut i: usize = 0;
    proof {
        assert(cs.take(0) =~= Seq::<Tree>::empty());
        assert(names_v(names@) =~= Seq::<Seq<char>>::empty());
    }
    while i < ctors.len()
        invariant
            i <= ctors@.len(),
            cs == views(ctors@),
            names_v(names@) == ctor_names(cs.take(i as int)),
        decreases ctors@.len() - i,
    {
        proof {
            assert(cs.take(i + 1).drop_last() =~= cs.take(i as int));
            assert(cs.take(i + 1).last() == ctors@[i as int]@);
        }
        if let Some(n) = ctors[i].name() {
            let ghost n0 = names@;
            names.push(String::from_str(n));
            proof {
                assert(names_v(names@) =~= names_v(n0).push(n@));
            }
        }
        i = i + 1;
    }
    proof {
        assert(cs.take(i as int) =~= cs);
    }
    registry.declare_adt(name, 0, names);
}

// ── handlers ────────────────────────────────────────────────────

/// What a handler's head reports, against the constructors handled so far
/// (`seen`, each where first handled): whether its body is to be checked,
/// the report, and the constructors handled after it. The message pattern
/// must name a constructor; a declared constructor of another type is
/// reported; a constructor handled before is reported against the first
/// handler.
pub open spec fn handler_head_v(
    h: Tree,
    actor: Seq<char>,
    message: Seq<char>,
    reg: RegistryV,
    seen: Map<Seq<char>, Span>,
    id: u32,
) -> (bool, Option<DiagV>, Map<Seq<char>, Span>) {
    match nth_view(pick(h.kids(), Sel::Pattern), 0) {
        None => (false, None, seen),
        Some(p) => {
            let span = span_at(p.range(), id);
            if p.kind() != SyntaxKind::CONSTRUCTOR_PAT {
                (
                    false,
                    Some(err(CheckCode::C0037, span, "a handler in actor `"@ + actor + "` must name a message constructor"@)),
                    seen,
                )
            } else {
                match first_text(p.kids(), Sel::Token(SyntaxKind::IDENT)) {
                    None => (false, None, seen),
                    Some(c) => if reg.ctors.contains_key(c) && reg.ctors[c].owner != message {
                        (
                            false,
                            Some(
                                err(
                                    CheckCode::C0037,
                                    span,
                                    "`"@ + c + "` is not a constructor of actor `"@ + actor + "`'s message type `"@
                                        + message + "`"@,
                                ),
                            ),
                            seen,
                        )
                    } else if seen.contains_key(c) {
                        (
                            false,
                            Some(
                                DiagV {
                                    code: CheckCode::C0036,
                                    severity: Severity::Error,
                                    span,
                                    message: "actor `"@ + actor + "` already handles `"@ + c + "`"@,
                                    related: seq![(seen[c], "first handled here"@)],
                                },
                            ),
                            seen,
                        )
                    } else {
                        (true, None, seen.insert(c, span))
                    },
                }
            }
        },
    }
}

/// Checks a handler's head: its message pattern names a constructor of the
/// actor's message type `message`, not handled before. Records the
/// constructor in `seen` and returns whether the handler's body is to be
/// checked.
pub fn check_handler_head(
    handler: &ActorHandler,
    actor: &str,
    message: &str,
    registry: &Registry,
    seen: &mut Vec<(String, Span)>,
    diags: &mut Vec<CheckDiagnostic>,
    source_id: u32,
) -> (r: bool)
    ensures
        ({
            let (ok, d, m) = handler_head_v(handler@, actor@, message@, registry@, keyed(old(seen)@), source_id);
            &&& r == ok
            &&& diags_v(final(diags)@) == match d {
                Some(x) => diags_v(old(diags)@).push(x),
                None => diags_v(old(diags)@),
            }
            &&& keyed(final(seen)@) == m
        }),
{
    let ghost d0 = diags@;
    let pattern = match handler.message_pattern() {
        Some(p) => p,
        None => return false,
    };
    let span = node_span(pattern.syntax(), source_id);
    let ctor_pat = match &pattern {
        Pattern::Constructor(c) => c,
        _ => {
            let m = message3("a handler in actor `", actor, "` must name a message constructor");
            let d = CheckDiagnostic::error(CheckCode::C0037, span, m);
            diags.push(d);
            proof {
                assert(diag_v(d).related =~= Seq::<(Span, Seq<char>)>::empty());
                assert(diags_v(diags@) =~= diags_v(d0).push(diag_v(d)));
            }
            return false;
        },
    };
    let name = match ctor_pat.name() {
        Some(n) => n,
        None => return false,
    };
    if let Some(info) = registry.ctor(name) {
        if !crate::wire::replay::str_eq(info.owner.as_str(), message) {
            let mut m = String::new();
            m.append("`");
            m.append(name);
            m.append("` is not a constructor of actor `");
            m.append(actor);
            m.append("`'s message type `");
            m.append(message);
            m.append("`");
            let d = CheckDiagnostic::error(CheckCode::C0037, span, m);
            diags.push(d);
            proof {
                assert(d.message@ =~= "`"@ + name@ + "` is not a constructor of actor `"@ + actor@
                    + "`'s message type `"@ + message@ + "`"@);
                assert(diag_v(d).related =~= Seq::<(Span, Seq<char>)>::empty());
                assert(diags_v(diags@) =~= diags_v(d0).push(diag_v(d)));
            }
            return false;
        }
    }
    match find_last(seen, name) {
        Some(k) => {
            proof {
                lemma_keyed_last(seen@, k as int, name@);
            }
            let first = seen[k].1;
            let m = message5("actor `", actor, "` already handles `", name, "`");
            let d = CheckDiagnostic::error(CheckCode::C0036, span, m).with_related(
                first,
                String::from_str("first handled here"),
            );
            diags.push(d);
            proof {
                assert(diag_v(d).related =~= seq![(first, "first handled here"@)]);
                assert(diags_v(diags@) =~= diags_v(d0).push(diag_v(d)));
            }
            false
        },
        None => {
            proof {
                lemma_keyed_last(seen@, -1, name@);
            }
            let key = String::from_str(name);
            proof {
                lemma_keyed_push(seen@, (key, span));
            }
            seen.push((key, span));
            true
        },
    }
}

// ── coverage ────────────────────────────────────────────────────

/// The constructors among `cs` that `seen` does not hold, in order.
pub open spec fn unhandled(cs: Seq<Seq<char>>, seen: Map<Seq<char>, Span>) -> Seq<Seq<char>>
    decreases cs.len(),
{
    if cs.len() == 0 {
        Seq::empty()
    } else {
        let rest = unhandled(cs.drop_last(), seen);
        if seen.contains_key(cs.last()) {
            rest
        } else {
            rest.push(cs.last())
        }
    }
}

/// The texts of `s` joined with `sep`.
pub open spec fn join_with(s: Seq<Seq<char>>, sep: Seq<char>) -> Seq<char>
    decreases s.len(),
{
    if s.len() == 0 {
        Seq::empty()
    } else if s.len() == 1 {
        s[0]
    } else {
        join_with(s.drop_last(), sep) + sep + s.last()
    }
}

/// What an actor's handlers report about coverage: the constructors of the
/// message type `message` that no handler names, when there are any.
pub open spec fn coverage_v(
    decl: Tree,
    actor: Seq<char>,
    message: Seq<char>,
    reg: RegistryV,
    seen: Map<Seq<char>, Span>,
    id: u32,
) -> Option<DiagV> {
    if !reg.adts.contains_key(message) {
        None
    } else {
        let m = unhandled(reg.adts[message].ctors, seen);
        if m.len() == 0 {
            None
        } else {
            Some(
                err(
                    CheckCode::C0041,
                    name_span(decl, id),
                    "actor `"@ + actor + "` does not handle message "@ + (if m.len() == 1 {
                        "variant"@
                    } else {
                        "variants"@
                    }) + " `"@ + join_with(m, "`, `"@) + "`"@,
                ),
            )
        }
    }
}

/// Whether `name` is among the recorded constructors.
fn seen_has(seen: &Vec<(String, Span)>, name: &str) -> (r: bool)
    ensures
        r == keyed(seen@).contains_key(name@),
{
    match find_last(seen, name) {
        Some(k) => {
            proof {
                lemma_keyed_last(seen@, k as int, name@);
            }
            true
        },
        None => {
            proof {
                lemma_keyed_last(seen@, -1, name@);
            }
            false
        },
    }
}

/// Checks that the handlers, which handled the constructors `seen`, cover
/// every constructor of the message type `message`.
pub fn check_handler_coverage(
    decl: &ActorDecl,
    actor: &str,
    message: &str,
    registry: &Registry,
    seen: &Vec<(String, Span)>,
    diags: &mut Vec<CheckDiagnostic>,
    source_id: u32,
)
    ensures
        diags_v(final(diags)@) == match coverage_v(decl@, actor@, message@, registry@, keyed(seen@), source_id) {
            Some(x) => diags_v(old(diags)@).push(x),
            None => diags_v(old(diags)@),
        },
{
    let ctors = match registry.adt_constructors(message) {
        Some(c) => c,
        None => return,
    };
    let ghost cs = names_v(ctors@);
    let ghost sm = keyed(seen@);
    let mut missing: Vec<&str> = Vec::new();
    let mut i: usize = 0;
    proof {
        assert(cs.take(0) =~= Seq::<Seq<char>>::empty());
        assert(crate::ast::str_views(missing@) =~= Seq::<Seq<char>>::empty());
    }
    while i < ctors.len()
        invariant
            i <= ctors@.len(),
            cs == names_v(ctors@),
            sm == keyed(seen@),
            crate::ast::str_views(missing@) == unhandled(cs.take(i as int), sm),
        decreases ctors@.len() - i,
    {
        proof {
            assert(cs.take(i + 1).drop_last() =~= cs.take(i as int));
            assert(cs.take(i + 1).last() == ctors@[i as int]@);
        }
        if !seen_has(seen, ctors[i].as_str()) {
            let ghost m0 = missing@;
            missing.push(ctors[i].as_str());
            proof {
                assert(crate::ast::str_views(missing@) =~= crate::ast::str_views(m0).push(ctors@[i as int]@));
            }
        }
        i = i + 1;
    }
    proof {
        assert(cs.take(i as int) =~= cs);
    }
    let ghost ms = crate::ast::str_views(missing@);
    if missing.len() == 0 {
        return;
    }
    let mut m = String::new();
    m.append("actor `");
    m.append(actor);
    m.append("` does not handle message ");
    if missing.len() == 1 {
        m.append("variant");
    } else {
        m.append("variants");
    }
    m.append(" `");
    let ghost head = m@;
    let mut j: usize = 0;
    proof {
        assert(ms.take(0) =~= Seq::<Seq<char>>::empty());
        assert(m@ =~= head + join_with(ms.take(0), "`, `"@));
    }
    while j < missing.len()
        invariant
            j <= missing@.len(),
            ms == crate::ast::str_views(missing@),
            m@ == head + join_with(ms.take(j as int), "`, `"@),
        decreases missing@.len() - j,
    {
        let ghost before = m@;
        if j > 0 {
            m.append("`, `");
        }
        m.append(missing[j]);
        proof {
            let t = ms.take(j + 1);
            assert(t.drop_last() =~= ms.take(j as int));
            assert(t.last() == missing@[j as int]@);
            if j == 0 {
                assert(join_with(t, "`, `"@) == t[0]);
                assert(m@ =~= head + join_with(t, "`, `"@));
            } else {
                assert(m@ =~= head + join_with(t, "`, `"@));
            }
        }
        j = j + 1;
    }
    m.append("`");
    let span = name_token_span(decl.syntax(), source_id);
    let d = CheckDiagnostic::error(CheckCode::C0041, span, m);
    let ghost d0 = diags@;
    diags.push(d);
    proof {
        assert(ms.take(j as int) =~= ms);
        assert(d.message@ =~= "actor `"@ + actor@ + "` does not handle message "@ + (if ms.len() == 1 {
            "variant"@
        } else {
            "variants"@
        }) + " `"@ + join_with(ms, "`, `"@) + "`"@);
        assert(diag_v(d).related =~= Seq::<(Span, Seq<char>)>::empty());
        assert(diags_v(diags@) =~= diags_v(d0).push(diag_v(d)));
    }
}

} // verus!
