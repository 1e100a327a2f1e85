//! Declaration headers: what the checker files in the registry about a
//! type, effect, or tool declaration before elaborating any body.
use vstd::prelude::*;

use crate::actors::ctor_names;
use crate::ast::{AstNode, EffectDecl, ExternDecl, ToolDecl, TypeDecl};
use crate::bodies::{err, message3};
use crate::checker::{dedup_first, distinct_params, param_annotated};
use crate::diag::{diag_v, diags_v, CheckCode, CheckDiagnostic, DiagV, Span};
use crate::names::name_token_span;
use crate::namespaces::name_span;
use crate::registry::{names_v, AdtV, Registry};
use crate::select::{after, first, first_text, flat, pick, texts, Sel};
use crate::syntax::{SyntaxKind, Tree};

verus! {

/// The type parameters a declaration names, in order.
pub open spec fn type_params_v(d: Tree) -> Seq<Seq<char>> {
    texts(pick(flat(d.kids(), SyntaxKind::TYPE_PARAMS), Sel::Token(SyntaxKind::IDENT)))
}

/// One report, at `span`, for each parameter of `ps` that repeats an
/// earlier one.
pub open spec fn repeated_params(ps: Seq<Seq<char>>, span: Span) -> Seq<DiagV>
    decreases ps.len(),
{
    if ps.len() == 0 {
        Seq::empty()
    } else {
        let rest = repeated_params(ps.drop_last(), span);
        if ps.drop_last().contains(ps.last()) {
            rest.push(err(CheckCode::C0013, span, "type parameter `"@ + ps.last() + "` is declared twice"@))
        } else {
            rest
        }
    }
}

/// Reports, at `span`, each parameter of `params` that repeats an earlier
/// one.
fn report_repeated_params(params: &Vec<&str>, span: Span, diags: &mut Vec<CheckDiagnostic>)
    ensures
        diags_v(final(diags)@) == diags_v(old(diags)@) + repeated_params(
            crate::ast::str_views(params@),
            span,
        ),
{
    let ghost ps = crate::ast::str_views(params@);
    let ghost d0 = diags_v(diags@);
    let mut i: usize = 0;
    proof {
        assert(ps.take(0) =~= Seq::<Seq<char>>::empty());
        assert(diags_v(diags@) =~= d0 + Seq::<DiagV>::empty());
    }
    while i < params.len()
        invariant
            i <= params@.len(),
            crate::ast::str_views(params@) == ps,
            diags_v(diags@) == d0 + repeated_params(ps.take(i as int), span),
        decreases params@.len() - i,
    {
        let ghost t = ps.take(i + 1);
        proof {
            assert(t.drop_last() =~= ps.take(i as int));
            assert(t.last() == params@[i as int]@);
        }
        let mut seen = false;
        let mut j: usize = 0;
        while j < i
            invariant
                j <= i < params@.len(),
                crate::ast::str_views(params@) == ps,
                seen == exists|k: int| 0 <= k < j && ps[k] == ps[i as int],
            decreases i - j,
        {
            assert(ps[j as int] == params@[j as int]@);
            assert(ps[i as int] == params@[i as int]@);
            if crate::wire::replay::str_eq(params[j], params[i]) {
                seen = true;
            }
            j = j + 1;
        }
        proof {
            if seen {
                let k = choose|k: int| 0 <= k < i && ps[k] == ps[i as int];
                assert(t.drop_last()[k] == ps[i as int]);
            }
            if t.drop_last().contains(t.last()) {
                let k = choose|k: int| 0 <= k < t.drop_last().len() && t.drop_last()[k] == t.last();
                assert(ps[k] == ps[i as int]);
            }
        }
        if seen {
            let m = message3("type parameter `", params[i], "` is declared twice");
            let d = CheckDiagnostic::error(CheckCode::C0013, span, m);
            let ghost before = diags_v(diags@);
            diags.push(d);
            proof {
                assert(diag_v(d).related =~= Seq::<(Span, Seq<char>)>::empty());
                assert(diags_v(diags@) =~= before.push(diag_v(d)));
                assert(d0 + repeated_params(t, span) =~= (d0 + repeated_params(ps.take(i as int), span)).push(
                    diag_v(d),
                ));
            }
        }
        i = i + 1;
    }
    proof {
        assert(ps.take(i as int) =~= ps);
    }
}

/// The views of exported type entries.
pub open spec fn exported_v(s: Seq<(String, bool)>) -> Seq<(Seq<char>, bool)> {
    Seq::new(s.len(), |i: int| (s[i].0@, s[i].1))
}

/// Registers a type declaration's name, arity, and constructor names;
/// lists it among the exports when it is `pub`, with whether it is opaque;
/// and reports each type parameter declared twice. The arity counts
/// distinct parameters.
pub fn register_adt_header(
    registry: &mut Registry,
    exported: &mut Vec<(String, bool)>,
    diags: &mut Vec<CheckDiagnostic>,
    decl: &TypeDecl,
    source_id: u32,
)
    ensures
        match first_text(decl@.kids(), Sel::Token(SyntaxKind::IDENT)) {
            None => final(registry)@ == old(registry)@ && final(exported)@ == old(exported)@ && final(diags)@
                == old(diags)@,
            Some(n) => {
                &&& exported_v(final(exported)@) == if first(decl@.kids(), Sel::Node(SyntaxKind::VISIBILITY)) is Some {
                    exported_v(old(exported)@).push(
                        (n, first(decl@.kids(), Sel::Token(SyntaxKind::OPAQUE_KW)) is Some),
                    )
                } else {
                    exported_v(old(exported)@)
                }
                &&& diags_v(final(diags)@) == diags_v(old(diags)@) + repeated_params(
                    type_params_v(decl@),
                    name_span(decl@, source_id),
                )
                &&& final(registry)@.adts == old(registry)@.adts.insert(
                    n,
                    AdtV {
                        arity: dedup_first(type_params_v(decl@)).len(),
                        ctors: ctor_names(pick(decl@.kids(), Sel::Node(SyntaxKind::CONSTRUCTOR))),
                    },
                )
                &&& final(registry)@.ctors == old(registry)@.ctors
                &&& final(registry)@.effects == old(registry)@.effects
            },
        },
{
    let name = match decl.name() {
        Some(n) => n,
        None => return,
    };
    if decl.is_pub() {
        let ghost e0 = exported@;
        let opaque = decl.is_opaque();
        exported.push((String::from_str(name), opaque));
        proof {
            assert(exported_v(exported@) =~= exported_v(e0).push((name@, opaque)));
        }
    }
    let params = decl.type_params();
    let span = name_token_span(decl.syntax(), source_id);
    report_repeated_params(&params, span, diags);
    let ctors = decl.constructors();
    let ghost cs = crate::ast::views(ctors@);
    let mut names: Vec<String> = Vec::new();
    let mut c: usize = 0;
    proof {
        assert(cs.take(0) =~= Seq::<Tree>::empty());
        assert(names_v(names@) =~= Seq::<Seq<char>>::empty());
    }
    while c < ctors.len()
        invariant
            c <= ctors@.len(),
            cs == crate::ast::views(ctors@),
            names_v(names@) == ctor_names(cs.take(c as int)),
        decreases ctors@.len() - c,
    {
        proof {
            assert(cs.take(c + 1).drop_last() =~= cs.take(c as int));
            assert(cs.take(c + 1).last() == ctors@[c as int]@);
        }
        if let Some(n) = ctors[c].name() {
            let ghost n0 = names@;
            names.push(String::from_str(n));
            proof {
                assert(names_v(names@) =~= names_v(n0).push(n@));
            }
        }
        c = c + 1;
    }
    proof {
        assert(cs.take(c as int) =~= cs);
    }
    let distinct = distinct_params(decl);
    let arity = distinct.len();
    proof {
        assert(crate::checker::strs_v(distinct@).len() == distinct@.len());
    }
    registry.declare_adt(String::from_str(name), arity, names);
}

/// Registers an effect declaration's name and type-parameter count, so
/// effect annotations can resolve and arity-check it.
pub fn register_effect(registry: &mut Registry, decl: &EffectDecl)
    ensures
        match first_text(decl@.kids(), Sel::Token(SyntaxKind::IDENT)) {
            None => final(registry)@ == old(registry)@,
            Some(n) => final(registry)@.effects == old(registry)@.effects.insert(
                n,
                type_params_v(decl@).len() as usize,
            ) && final(registry)@.adts == old(registry)@.adts && final(registry)@.ctors == old(registry)@.ctors,
        },
{
    let name = match decl.name() {
        Some(n) => n,
        None => return,
    };
    let arity = decl.type_params().len();
    registry.declare_effect(String::from_str(name), arity);
}

/// Registers a tool's marker type: a type of no parameters and no
/// constructors, so `Tool<Name>` resolves like any effect argument.
pub fn register_tool_marker(registry: &mut Registry, decl: &ToolDecl)
    ensures
        match first_text(decl@.kids(), Sel::Token(SyntaxKind::IDENT)) {
            None => final(registry)@ == old(registry)@,
            Some(n) => final(registry)@.adts == old(registry)@.adts.insert(n, AdtV { arity: 0, ctors: Seq::empty() })
                && final(registry)@.ctors == old(registry)@.ctors && final(registry)@.effects == old(
                registry,
            )@.effects,
        },
{
    let name = match decl.name() {
        Some(n) => n,
        None => return,
    };
    let none: Vec<String> = Vec::new();
    proof {
        assert(names_v(none@) =~= Seq::<Seq<char>>::empty());
    }
    registry.declare_adt(String::from_str(name), 0, none);
}

/// Checks a tool declaration's header before its types are elaborated:
/// when it has a name, an input type and an output type, reports each type
/// parameter declared twice, at the name. A tool missing any of these is
/// skipped silently.
pub fn check_tool_type_params(decl: &ToolDecl, diags: &mut Vec<CheckDiagnostic>, source_id: u32)
    ensures
        diags_v(final(diags)@) == diags_v(old(diags)@) + if first_text(
            decl@.kids(),
            Sel::Token(SyntaxKind::IDENT),
        ) is Some && first(after(decl@.kids(), SyntaxKind::COLON), Sel::Type) is Some && first(
            after(decl@.kids(), SyntaxKind::ARROW),
            Sel::Type,
        ) is Some {
            repeated_params(type_params_v(decl@), name_span(decl@, source_id))
        } else {
            Seq::empty()
        },
{
    let ghost d0 = diags_v(diags@);
    proof {
        assert(d0 + Seq::<DiagV>::empty() =~= d0);
    }
    if decl.name().is_none() {
        return;
    }
    if decl.input().is_none() || decl.output().is_none() {
        return;
    }
    let params = decl.type_params();
    let span = name_token_span(decl.syntax(), source_id);
    report_repeated_params(&params, span, diags);
}

/// Whether every parameter of `d` and its return type carry annotations.
pub open spec fn fully_annotated(d: Tree) -> bool {
    &&& crate::ast::first_in(d.kids(), SyntaxKind::RETURN_TYPE, Sel::Type) is Some
    &&& forall|i: int|
        0 <= i < pick(flat(d.kids(), SyntaxKind::PARAM_LIST), Sel::Node(SyntaxKind::PARAM)).len()
            ==> param_annotated(#[trigger] pick(flat(d.kids(), SyntaxKind::PARAM_LIST), Sel::Node(SyntaxKind::PARAM))[i])
}

/// An extern's signature counts as fully annotated only if its return
/// type and every one of its parameters, wherever it stands, carry a type:
/// one unannotated parameter at any position, or a missing return type,
/// makes it not so.
pub proof fn law_extern_every_param_annotated(d: Tree, i: int)
    ensures
        0 <= i < pick(flat(d.kids(), SyntaxKind::PARAM_LIST), Sel::Node(SyntaxKind::PARAM)).len()
            && !param_annotated(pick(flat(d.kids(), SyntaxKind::PARAM_LIST), Sel::Node(SyntaxKind::PARAM))[i])
            ==> !fully_annotated(d),
        crate::ast::first_in(d.kids(), SyntaxKind::RETURN_TYPE, Sel::Type) is None ==> !fully_annotated(d),
{
}

/// Checks that an extern declaration's signature is fully annotated, as
/// externs have no body to infer from; reports one that is not. Returns
/// whether the signature is to be elaborated: a nameless extern is skipped
/// silently.
pub fn check_extern_signature(decl: &ExternDecl, diags: &mut Vec<CheckDiagnostic>, source_id: u32) -> (r: bool)
    ensures
        match first_text(decl@.kids(), Sel::Token(SyntaxKind::IDENT)) {
            None => !r && final(diags)@ == old(diags)@,
            Some(n) => if fully_annotated(decl@) {
                r && final(diags)@ == old(diags)@
            } else {
                !r && diags_v(final(diags)@) == diags_v(old(diags)@).push(
                    err(
                        CheckCode::C0014,
                        name_span(decl@, source_id),
                        "extern `"@ + n + "` requires a fully annotated signature"@,
                    ),
                )
            },
        },
        r ==> forall|i: int|
            0 <= i < pick(flat(decl@.kids(), SyntaxKind::PARAM_LIST), Sel::Node(SyntaxKind::PARAM)).len()
                ==> param_annotated(
                #[trigger] pick(flat(decl@.kids(), SyntaxKind::PARAM_LIST), Sel::Node(SyntaxKind::PARAM))[i],
            ),
        r ==> crate::ast::first_in(decl@.kids(), SyntaxKind::RETURN_TYPE, Sel::Type) is Some,
{
    let name = match decl.name() {
        Some(n) => n,
        None => return false,
    };
    let params = decl.params();
    let ghost ps = pick(flat(decl@.kids(), SyntaxKind::PARAM_LIST), Sel::Node(SyntaxKind::PARAM));
    let mut annotated = true;
    let mut i: usize = 0;
    while i < params.len()
        invariant
            i <= params@.len(),
            crate::ast::views(params@) == ps,
            annotated == forall|k: int| 0 <= k < i ==> param_annotated(#[trigger] ps[k]),
        decreases params@.len() - i,
    {
        proof {
            assert(params@[i as int]@ == ps[i as int]);
        }
        if params[i].ty().is_none() {
            annotated = false;
        }
        i = i + 1;
    }
    if decl.return_type().is_some() && annotated {
        return true;
    }
    let m = message3("extern `", name, "` requires a fully annotated signature");
    let d = CheckDiagnostic::error(CheckCode::C0014, name_token_span(decl.syntax(), source_id), m);
    let ghost d0 = diags@;
    diags.push(d);
    proof {
        assert(diag_v(d).related =~= Seq::<(Span, Seq<char>)>::empty());
        assert(diags_v(diags@) =~= diags_v(d0).push(diag_v(d)));
    }
    false
}

} // verus!
