//! Whole-program structure: the module graph and import resolution.
//!
//! Each file's `use` declarations resolve against the program's module
//! names; the resolved imports form the module graph, whose strongly
//! connected components give the order modules are checked in (callees
//! first). An import whose target shares the importer's component closes a
//! cycle and is reported; an import that names no module of the program is
//! reported as unresolved; a `module` declaration that disagrees with the
//! file's path-derived name is reported.
use vstd::prelude::*;

use crate::ast::{str_views, tok_views, AstNode, Decl, Projection, SourceFile, UseDecl};
use crate::diag::{CheckCode, CheckDiagnostic, Severity, Span};
use crate::graph::{
    ascending, callees_first, edges_in_range, has_edge, partitions, reaches, strongly_connected, tarjan,
};
use crate::names::{last_segment_of, name_token_span, node_span, span_at, token_span, ModuleName};
use crate::select::{first, first_text, flat, pick, text_of, texts, Sel};
use crate::syntax::{SyntaxKind, SyntaxToken, Tree};
use crate::ast::{after_as, head_text};

verus! {

// ── resolving imports ───────────────────────────────────────────

/// The dotted name the segments `segs` spell: joined with `.`.
pub open spec fn dotted(segs: Seq<Seq<char>>) -> Seq<char>
    decreases segs.len(),
{
    if segs.len() == 0 {
        Seq::empty()
    } else if segs.len() == 1 {
        segs[0]
    } else {
        dotted(segs.drop_last()) + seq!['.'] + segs.last()
    }
}

/// The names of a program's modules, in order.
pub open spec fn module_names(s: Seq<(ModuleName, SourceFile)>) -> Seq<Seq<char>> {
    Seq::new(s.len(), |i: int| s[i].0@)
}

/// The index of the module named `name`; when several share the name, the
/// last of them.
pub open spec fn lookup(names: Seq<Seq<char>>, name: Seq<char>) -> Option<usize>
    decreases names.len(),
{
    if names.len() == 0 {
        None
    } else if names.last() == name {
        Some((names.len() - 1) as usize)
    } else {
        lookup(names.drop_last(), name)
    }
}

/// The source id a module's position gives its spans: the position, or
/// `u32::MAX` past it.
pub open spec fn source_id_of(i: usize) -> u32 {
    if i <= u32::MAX {
        i as u32
    } else {
        u32::MAX
    }
}

/// One resolved `use` import within a module.
#[derive(Debug)]
pub struct ResolvedUse {
    /// The imported module's name (the dotted path as written).
    pub target: ModuleName,
    /// Index of `target` in the program, or `None` when unresolved.
    pub target_index: Option<usize>,
    /// Span of the whole `use` declaration (cycle diagnostics).
    pub use_span: Span,
    /// Span of the path (unresolved-module diagnostics).
    pub path_span: Span,
    /// Explicit `as` alias, if any.
    pub alias: Option<String>,
    /// Selective members and their name spans; empty for whole-module and
    /// aliased forms.
    pub selected: Vec<(String, Span)>,
}

/// The view of a resolved import.
pub struct ResolvedUseV {
    /// The imported module's name.
    pub target: Seq<char>,
    /// Index of the target in the program, if any.
    pub target_index: Option<usize>,
    /// Span of the `use` declaration.
    pub use_span: Span,
    /// Span of the path.
    pub path_span: Span,
    /// The alias, if any.
    pub alias: Option<Seq<char>>,
    /// Selective members with their spans.
    pub selected: Seq<(Seq<char>, Span)>,
}

/// The views of selective members.
pub open spec fn members_v(s: Seq<(String, Span)>) -> Seq<(Seq<char>, Span)> {
    Seq::new(s.len(), |i: int| (s[i].0@, s[i].1))
}

/// The view of an optional string.
pub open spec fn opt_string(s: Option<String>) -> Option<Seq<char>> {
    match s {
        Some(x) => Some(x@),
        None => None,
    }
}

impl View for ResolvedUse {
    type V = ResolvedUseV;

    open spec fn view(&self) -> ResolvedUseV {
        ResolvedUseV {
            target: self.target@,
            target_index: self.target_index,
            use_span: self.use_span,
            path_span: self.path_span,
            alias: opt_string(self.alias),
            selected: members_v(self.selected@),
        }
    }
}

/// The views of resolved imports.
pub open spec fn resolved_views(s: Seq<ResolvedUse>) -> Seq<ResolvedUseV> {
    Seq::new(s.len(), |i: int| s[i]@)
}

/// The member tokens of a `use` declaration's selective group.
pub open spec fn member_tokens(u: Tree) -> Seq<Tree> {
    pick(flat(u.kids(), SyntaxKind::USE_GROUP), Sel::Token(SyntaxKind::IDENT))
}

/// The selective members of a `use` declaration with their spans.
pub open spec fn members_of(u: Tree, id: u32) -> Seq<(Seq<char>, Span)> {
    Seq::new(
        member_tokens(u).len(),
        |i: int| (text_of(member_tokens(u)[i]), span_at(member_tokens(u)[i].range(), id)),
    )
}

/// The path a `use` declaration imports.
pub open spec fn path_of(u: Tree) -> Option<Tree> {
    first(u.kids(), Sel::Node(SyntaxKind::PATH))
}

/// The module name a path spells.
pub open spec fn path_name(p: Tree) -> Seq<char> {
    dotted(texts(pick(p.kids(), Sel::Token(SyntaxKind::IDENT))))
}

/// What the `use` declaration `u`, importing the path `p`, resolves to
/// against the module names `names`, its spans in source `id`.
pub open spec fn resolve_v(u: Tree, p: Tree, names: Seq<Seq<char>>, id: u32) -> ResolvedUseV {
    ResolvedUseV {
        target: path_name(p),
        target_index: lookup(names, path_name(p)),
        use_span: span_at(u.range(), id),
        path_span: span_at(p.range(), id),
        alias: head_text(after_as(pick(u.kids(), Sel::NonTrivia))),
        selected: members_of(u, id),
    }
}

/// The imports among the declarations `ds`: each `use` declaration with a
/// path, resolved, in order.
pub open spec fn uses_of(ds: Seq<Tree>, names: Seq<Seq<char>>, id: u32) -> Seq<ResolvedUseV>
    decreases ds.len(),
{
    if ds.len() == 0 {
        Seq::empty()
    } else {
        let rest = uses_of(ds.drop_last(), names, id);
        let d = ds.last();
        if d.kind() == SyntaxKind::USE_DECL && path_of(d) is Some {
            rest.push(resolve_v(d, path_of(d).unwrap(), names, id))
        } else {
            rest
        }
    }
}

impl ResolvedUse {
    /// The qualifier a whole-module or aliased import binds: the alias if
    /// given, otherwise the target's trailing segment.
    pub fn qualifier(&self) -> (r: &str)
        ensures
            r@ == match self.alias {
                Some(a) => a@,
                None => last_segment_of(self.target@),
            },
    {
        match &self.alias {
            Some(a) => a.as_str(),
            None => self.target.last_segment(),
        }
    }
}

/// The source id of the module at position `i`.
fn id_at(i: usize) -> (r: u32)
    ensures
        r == source_id_of(i),
{
    if i <= 0xffff_ffffusize {
        i as u32
    } else {
        u32::MAX
    }
}

/// The segments joined with `.`.
fn dotted_name(segs: &Vec<&str>) -> (r: String)
    ensures
        r@ == dotted(str_views(segs@)),
{
    let mut out = String::new();
    let mut i: usize = 0;
    while i < segs.len()
        invariant
            i <= segs@.len(),
            out@ == dotted(str_views(segs@).take(i as int)),
        decreases segs@.len() - i,
    {
        let ghost before = out@;
        if i > 0 {
            out.append(".");
            proof {
                reveal_strlit(".");
                assert("."@ =~= seq!['.']);
            }
        }
        out.append(segs[i]);
        proof {
            let t = str_views(segs@).take(i + 1);
            assert(t.drop_last() =~= str_views(segs@).take(i as int));
            assert(t.last() == segs@[i as int]@);
            if i == 0 {
                assert(out@ =~= t[0]);
            } else {
                assert(out@ =~= before + seq!['.'] + t.last());
            }
        }
        i = i + 1;
    }
    proof {
        assert(str_views(segs@).take(i as int) =~= str_views(segs@));
    }
    out
}

/// The index of the module named `name` in `index`, the last of several.
fn find_module(index: &[(ModuleName, SourceFile)], name: &str) -> (r: Option<usize>)
    ensures
        r == lookup(module_names(index@), name@),
        r matches Some(i) ==> i < index@.len(),
{
    let ghost names = module_names(index@);
    proof {
        assert(names.take(names.len() as int) =~= names);
    }
    let mut i = index.len();
    while i > 0
        invariant
            i <= index@.len(),
            names == module_names(index@),
            lookup(names, name@) == lookup(names.take(i as int), name@),
        decreases i,
    {
        proof {
            assert(names.take(i as int).drop_last() =~= names.take(i - 1));
            assert(names.take(i as int).last() == index@[i - 1].0@);
        }
        if crate::wire::replay::str_eq(index[i - 1].0.as_str(), name) {
            return Some(i - 1);
        }
        i = i - 1;
    }
    None
}

/// The selective-group members of `use_decl` with their name-token spans.
pub fn selected_members(use_decl: &UseDecl, source_id: u32) -> (r: Vec<(String, Span)>)
    ensures
        members_v(r@) == members_of(use_decl@, source_id),
{
    let toks = use_decl.selected_tokens();
    let ghost m = member_tokens(use_decl@);
    let mut r: Vec<(String, Span)> = Vec::new();
    let mut i: usize = 0;
    while i < toks.len()
        invariant
            i <= toks@.len(),
            tok_views(toks@) == m,
            m == member_tokens(use_decl@),
            r@.len() == i,
            forall|k: int|
                0 <= k < i ==> #[trigger] r@[k].0@ == text_of(m[k]) && r@[k].1 == span_at(
                    m[k].range(),
                    source_id,
                ),
        decreases toks@.len() - i,
    {
        let t: &SyntaxToken = toks[i];
        assert(m[i as int] == tok_views(toks@)[i as int]);
        assert(m[i as int] == t@);
        let ghost before = r@;
        let name = String::from_str(t.text.as_str());
        let span = token_span(t, source_id);
        assert(name@ == text_of(m[i as int]));
        assert(span == span_at(m[i as int].range(), source_id));
        r.push((name, span));
        assert(forall|k: int| 0 <= k < i ==> r@[k] == before[k]);
        i = i + 1;
    }
    proof {
        assert(members_v(r@) =~= members_of(use_decl@, source_id));
    }
    r
}

/// Resolves one `use` declaration against the names of the program's
/// modules;
/// `None` when it names no path.
pub fn resolve_use(use_decl: &UseDecl, index: &[(ModuleName, SourceFile)], source_id: u32) -> (r: Option<ResolvedUse>)
    ensures
        r is Some <==> path_of(use_decl@) is Some,
        r matches Some(u) ==> u@ == resolve_v(
            use_decl@,
            path_of(use_decl@).unwrap(),
            module_names(index@),
            source_id,
        ),
        r matches Some(u) ==> (u.target_index matches Some(t) ==> t < index@.len()),
{
    let path = match use_decl.path() {
        Some(p) => p,
        None => return None,
    };
    let segs = path.segments();
    let target = ModuleName::new(dotted_name(&segs));
    let target_index = find_module(index, target.as_str());
    let alias = match use_decl.alias() {
        Some(a) => Some(String::from_str(a)),
        None => None,
    };
    Some(
        ResolvedUse {
            target,
            target_index,
            use_span: node_span(use_decl.syntax(), source_id),
            path_span: node_span(path.syntax(), source_id),
            alias,
            selected: selected_members(use_decl, source_id),
        },
    )
}

/// Resolves a file's `use` declarations against the names of the
/// program's modules `index`, attaching spans tagged with the module's
/// position `source_id`.
pub fn resolve_uses(file: &SourceFile, index: &[(ModuleName, SourceFile)], source_id: usize) -> (r: Vec<ResolvedUse>)
    ensures
        resolved_views(r@) == uses_of(
            pick(file@.kids(), Sel::Decl),
            module_names(index@),
            source_id_of(source_id),
        ),
        forall|k: int|
            0 <= k < r@.len() ==> (#[trigger] r@[k].target_index matches Some(t) ==> t < index@.len()),
{
    let id = id_at(source_id);
    let decls = file.declarations();
    let ghost ds = pick(file@.kids(), Sel::Decl);
    let ghost names = module_names(index@);
    let mut uses: Vec<ResolvedUse> = Vec::new();
    let mut i: usize = 0;
    while i < decls.len()
        invariant
            i <= decls@.len(),
            crate::ast::views(decls@) == ds,
            crate::ast::all_wf(decls@),
            names == module_names(index@),
            id == source_id_of(source_id),
            resolved_views(uses@) == uses_of(ds.take(i as int), names, id),
            forall|k: int|
                0 <= k < uses@.len() ==> (#[trigger] uses@[k].target_index matches Some(t) ==> t
                    < index@.len()),
        decreases decls@.len() - i,
    {
        proof {
            assert(ds.take(i + 1).drop_last() =~= ds.take(i as int));
            assert(ds.take(i + 1).last() == decls@[i as int]@);
            assert(decls@[i as int].wf());
        }
        let ghost before = uses@;
        if let Decl::Use(u) = &decls[i] {
            if let Some(ru) = resolve_use(u, index, id) {
                uses.push(ru);
                proof {
                    assert(resolved_views(uses@) =~= resolved_views(before).push(uses@.last()@));
                }
            }
        }
        i = i + 1;
    }
    proof {
        assert(ds.take(i as int) =~= ds);
    }
    uses
}


// ── the module name ─────────────────────────────────────────────

/// The message for a `module` declaration naming `declared` in a file
/// whose path names it `expected`.
pub open spec fn module_name_message(declared: Seq<char>, expected: Seq<char>) -> Seq<char> {
    "module is declared `"@ + declared + "` but its path names it `"@ + expected + "`"@
}

/// Diagnostics for a `module` declaration that disagrees with the file's
/// path-derived name `expected`. An absent declaration, or one without a
/// name, is permitted.
pub fn module_name_diagnostics(file: &SourceFile, expected: &ModuleName, source_id: usize) -> (r: Vec<
    CheckDiagnostic,
>)
    ensures
        match first(file@.kids(), Sel::Node(SyntaxKind::MODULE_DECL)) {
            None => r@.len() == 0,
            Some(d) => match first_text(d.kids(), Sel::Token(SyntaxKind::IDENT)) {
                None => r@.len() == 0,
                Some(declared) => if declared == expected@ {
                    r@.len() == 0
                } else {
                    &&& r@.len() == 1
                    &&& r@[0].code == CheckCode::C0019
                    &&& r@[0].severity == Severity::Error
                    &&& r@[0].span == span_at(
                        match first(d.kids(), Sel::Token(SyntaxKind::IDENT)) {
                            Some(t) => t.range(),
                            None => d.range(),
                        },
                        source_id_of(source_id),
                    )
                    &&& r@[0].message@ == module_name_message(declared, expected@)
                    &&& r@[0].related@.len() == 0
                },
            },
        },
{
    let id = id_at(source_id);
    let decl = match file.module() {
        Some(d) => d,
        None => return Vec::new(),
    };
    let declared = match decl.name() {
        Some(n) => n,
        None => return Vec::new(),
    };
    if crate::wire::replay::str_eq(declared, expected.as_str()) {
        return Vec::new();
    }
    let mut message = String::new();
    message.append("module is declared `");
    message.append(declared);
    message.append("` but its path names it `");
    message.append(expected.as_str());
    message.append("`");
    proof {
        assert(message@ =~= module_name_message(declared@, expected@));
    }
    let mut r: Vec<CheckDiagnostic> = Vec::new();
    r.push(CheckDiagnostic::error(CheckCode::C0019, name_token_span(decl.syntax(), id), message));
    r
}

// ── the module graph ────────────────────────────────────────────

/// Whether one of `uses` resolves to module `j`.
pub open spec fn imports(uses: Seq<ResolvedUse>, j: usize) -> bool {
    exists|k: int| 0 <= k < uses.len() && #[trigger] uses[k].target_index == Some(j)
}

/// Whether every import of `resolved` names one of its modules.
pub open spec fn targets_in_range(resolved: Seq<Vec<ResolvedUse>>) -> bool {
    forall|i: int, k: int|
        0 <= i < resolved.len() && 0 <= k < resolved[i]@.len() ==> (#[trigger] resolved[i]@[k].target_index matches Some(
            t,
        ) ==> t < resolved.len())
}

/// The module graph: an edge `i → j` for each module `j` that module `i`
/// imports; each module's targets ascending and listed once.
pub fn import_graph(resolved: &Vec<Vec<ResolvedUse>>) -> (g: Vec<Vec<usize>>)
    requires
        targets_in_range(resolved@),
    ensures
        g@.len() == resolved@.len(),
        edges_in_range(g@),
        forall|i: int| 0 <= i < g@.len() ==> ascending(#[trigger] g@[i]@),
        forall|i: int, j: usize|
            0 <= i < g@.len() ==> (#[trigger] g@[i]@.contains(j) <==> imports(resolved@[i]@, j)),
{
    let mut g: Vec<Vec<usize>> = Vec::new();
    let mut i: usize = 0;
    while i < resolved.len()
        invariant
            i <= resolved@.len(),
            g@.len() == i,
            targets_in_range(resolved@),
            forall|a: int| 0 <= a < i ==> ascending(#[trigger] g@[a]@),
            forall|a: int, j: usize|
                0 <= a < i ==> (#[trigger] g@[a]@.contains(j) <==> imports(resolved@[a]@, j)),
        decreases resolved@.len() - i,
    {
        let uses = &resolved[i];
        let mut edges: Vec<usize> = Vec::new();
        let mut k: usize = 0;
        while k < uses.len()
            invariant
                k <= uses@.len(),
                ascending(edges@),
                forall|j: usize|
                    #[trigger] edges@.contains(j) <==> exists|q: int|
                        0 <= q < k && #[trigger] uses@[q].target_index == Some(j),
            decreases uses@.len() - k,
        {
            if let Some(t) = uses[k].target_index {
                crate::checker::insert_index(&mut edges, t);
            }
            proof {
                assert forall|j: usize| #[trigger] edges@.contains(j) <==> exists|q: int|
                    0 <= q < k + 1 && #[trigger] uses@[q].target_index == Some(j) by {
                    if uses@[k as int].target_index == Some(j) {
                        assert(exists|q: int| 0 <= q < k + 1 && #[trigger] uses@[q].target_index == Some(j));
                    }
                }
            }
            k = k + 1;
        }
        g.push(edges);
        proof {
            assert(g@[i as int]@ == edges@);
        }
        i = i + 1;
    }
    proof {
        assert forall|u: int, j: int| 0 <= u < g@.len() && 0 <= j < g@[u]@.len() implies #[trigger] g@[u]@[j]
            < g@.len() by {
            let t = g@[u]@[j];
            assert(g@[u]@.contains(t));
            let q = choose|q: int| 0 <= q < resolved@[u]@.len() && #[trigger] resolved@[u]@[q].target_index == Some(t);
        }
    }
    g
}

/// Whether `comp` maps each module to the position of its component in
/// `order`.
pub open spec fn component_index(order: Seq<Vec<usize>>, comp: Seq<usize>) -> bool {
    forall|k: int, m: usize|
        0 <= k < order.len() && #[trigger] order[k]@.contains(m) ==> m < comp.len() && comp[m as int] == k
}

/// The position in `order` of each module's component.
pub fn component_of(order: &Vec<Vec<usize>>, n: usize) -> (r: Vec<usize>)
    requires
        partitions(order@, n as nat),
    ensures
        r@.len() == n,
        component_index(order@, r@),
{
    let mut r: Vec<usize> = Vec::new();
    let mut i: usize = 0;
    while i < n
        invariant
            i <= n,
            r@.len() == i,
        decreases n - i,
    {
        r.push(0);
        i = i + 1;
    }
    let mut c: usize = 0;
    while c < order.len()
        invariant
            c <= order@.len(),
            r@.len() == n,
            partitions(order@, n as nat),
            forall|k: int, m: usize|
                0 <= k < c && #[trigger] order@[k]@.contains(m) ==> m < n && r@[m as int] == k,
        decreases order@.len() - c,
    {
        let comp = &order[c];
        let mut j: usize = 0;
        while j < comp.len()
            invariant
                j <= comp@.len(),
                comp@ == order@[c as int]@,
                c < order@.len(),
                r@.len() == n,
                partitions(order@, n as nat),
                forall|k: int, m: usize|
                    0 <= k < c && #[trigger] order@[k]@.contains(m) ==> m < n && r@[m as int] == k,
                forall|q: int| 0 <= q < j ==> r@[#[trigger] comp@[q] as int] == c,
            decreases comp@.len() - j,
        {
            let m = comp[j];
            assert(order@[c as int]@[j as int] == m);
            proof {
                assert forall|k: int, x: usize| 0 <= k < c && #[trigger] order@[k]@.contains(x) implies x != m by {
                    if x == m {
                        assert(order@[c as int]@.contains(m));
                    }
                }
            }
            r.set(m, c);
            j = j + 1;
        }
        proof {
            assert forall|k: int, m: usize| 0 <= k < c + 1 && #[trigger] order@[k]@.contains(m) implies m < n
                && r@[m as int] == k by {
                if k == c {
                    let q = choose|q: int| 0 <= q < comp@.len() && comp@[q] == m;
                    assert(r@[comp@[q] as int] == c);
                }
            }
        }
        c = c + 1;
    }
    r
}

// ── what an import reports ──────────────────────────────────────

/// Whether importing module `target` from `importer` closes a cycle: the
/// two share a component.
pub open spec fn closes_cycle(comp: Seq<usize>, importer: usize, target: usize) -> bool {
    comp[target as int] == comp[importer as int]
}

/// The message for an import of `target`, which names no module.
pub open spec fn unresolved_message(target: Seq<char>) -> Seq<char> {
    "unresolved import: no module named `"@ + target + "`"@
}

/// The message for an import of `target` that closes a cycle.
pub open spec fn circular_message(target: Seq<char>) -> Seq<char> {
    "circular import: module `"@ + target + "` is part of an import cycle"@
}

/// What the import `u` of module `importer` reports before its target's
/// exports are seeded: an unresolved module at the path, or a cycle at the
/// declaration; `None` when the import goes ahead.
pub fn import_diagnostic(u: &ResolvedUse, comp: &Vec<usize>, importer: usize) -> (r: Option<
    CheckDiagnostic,
>)
    requires
        importer < comp@.len(),
        u.target_index matches Some(t) ==> t < comp@.len(),
    ensures
        match u.target_index {
            None => r matches Some(d) && d.code == CheckCode::C0023 && d.severity == Severity::Error
                && d.span == u.path_span && d.message@ == unresolved_message(u.target@) && d.related@.len()
                == 0,
            Some(t) => if closes_cycle(comp@, importer, t) {
                r matches Some(d) && d.code == CheckCode::C0020 && d.severity == Severity::Error && d.span
                    == u.use_span && d.message@ == circular_message(u.target@) && d.related@.len() == 0
            } else {
                r is None
            },
        },
{
    match u.target_index {
        None => {
            let mut message = String::new();
            message.append("unresolved import: no module named `");
            message.append(u.target.as_str());
            message.append("`");
            proof {
                assert(message@ =~= unresolved_message(u.target@));
            }
            Some(CheckDiagnostic::error(CheckCode::C0023, u.path_span, message))
        },
        Some(t) => {
            if comp[t] == comp[importer] {
                let mut message = String::new();
                message.append("circular import: module `");
                message.append(u.target.as_str());
                message.append("` is part of an import cycle");
                proof {
                    assert(message@ =~= circular_message(u.target@));
                }
                Some(CheckDiagnostic::error(CheckCode::C0020, u.use_span, message))
            } else {
                None
            }
        },
    }
}

// ── the plan ────────────────────────────────────────────────────

/// A program's imports, its module graph, and the order its modules are
/// checked in.
#[derive(Debug)]
pub struct ImportPlan {
    /// Each module's resolved imports.
    pub resolved: Vec<Vec<ResolvedUse>>,
    /// The module graph.
    pub graph: Vec<Vec<usize>>,
    /// The strongly connected components of the graph, callees first:
    /// the order modules are checked in.
    pub order: Vec<Vec<usize>>,
    /// Each module's position in `order`.
    pub component: Vec<usize>,
}

/// Whether `p` is the plan of `modules`: their imports resolved, the graph
/// they form, and its components in dependency order.
pub open spec fn plan_of(modules: Seq<(ModuleName, SourceFile)>, p: ImportPlan) -> bool {
    let n = modules.len();
    &&& p.resolved@.len() == n
    &&& forall|i: int|
        0 <= i < n ==> resolved_views(#[trigger] p.resolved@[i]@) == uses_of(
            pick(modules[i].1@.kids(), Sel::Decl),
            module_names(modules),
            source_id_of(i as usize),
        )
    &&& targets_in_range(p.resolved@)
    &&& p.graph@.len() == n
    &&& edges_in_range(p.graph@)
    &&& forall|i: int| 0 <= i < n ==> ascending(#[trigger] p.graph@[i]@)
    &&& forall|i: int, j: usize|
        0 <= i < n ==> (#[trigger] p.graph@[i]@.contains(j) <==> imports(p.resolved@[i]@, j))
    &&& partitions(p.order@, n)
    &&& callees_first(p.graph@, p.order@)
    &&& strongly_connected(p.graph@, p.order@)
    &&& p.component@.len() == n
    &&& component_index(p.order@, p.component@)
}

/// Resolves every module's imports, builds the module graph, and orders
/// its strongly connected components callees first, so that a module's
/// imports from outside its own cycle are checked before it.
pub fn plan_imports(modules: &[(ModuleName, SourceFile)]) -> (r: ImportPlan)
    requires
        modules@.len() < 0xffff_ffff,
    ensures
        plan_of(modules@, r),
{
    let mut resolved: Vec<Vec<ResolvedUse>> = Vec::new();
    let mut i: usize = 0;
    while i < modules.len()
        invariant
            i <= modules@.len(),
            resolved@.len() == i,
            forall|a: int|
                0 <= a < i ==> resolved_views(#[trigger] resolved@[a]@) == uses_of(
                    pick(modules@[a].1@.kids(), Sel::Decl),
                    module_names(modules@),
                    source_id_of(a as usize),
                ),
            forall|a: int, k: int|
                0 <= a < i && 0 <= k < resolved@[a]@.len() ==> (#[trigger] resolved@[a]@[k].target_index matches Some(
                    t,
                ) ==> t < modules@.len()),
        decreases modules@.len() - i,
    {
        let uses = resolve_uses(&modules[i].1, modules, i);
        resolved.push(uses);
        i = i + 1;
    }
    let graph = import_graph(&resolved);
    let order = tarjan(&graph);
    let component = component_of(&order, modules.len());
    ImportPlan { resolved, graph, order, component }
}

/// An import is reported as circular exactly when its target imports the
/// importer back, directly or through other modules of the program.
pub proof fn law_circular_import(
    modules: Seq<(ModuleName, SourceFile)>,
    p: ImportPlan,
    i: usize,
    k: int,
    t: usize,
)
    requires
        plan_of(modules, p),
        i < modules.len(),
        0 <= k < p.resolved@[i as int]@.len(),
        p.resolved@[i as int]@[k].target_index == Some(t),
    ensures
        t < modules.len(),
        closes_cycle(p.component@, i, t) <==> reaches(p.graph@, t, i),
{
    let n = modules.len();
    assert(imports(p.resolved@[i as int]@, t));
    assert(p.graph@[i as int]@.contains(t));
    assert(has_edge(p.graph@, i, t));
    crate::graph::lemma_reach_edge(p.graph@, i, t);
    assert(crate::graph::covered(p.order@, i));
    assert(crate::graph::covered(p.order@, t));
    let ki = choose|x: int| 0 <= x < p.order@.len() && #[trigger] p.order@[x]@.contains(i);
    let kt = choose|x: int| 0 <= x < p.order@.len() && #[trigger] p.order@[x]@.contains(t);
    assert(p.component@[i as int] == ki);
    assert(p.component@[t as int] == kt);
}

} // verus!
