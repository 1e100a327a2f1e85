//! The value environment: lexically scoped name-to-scheme bindings.
use vstd::prelude::*;

use crate::registry::{find_last, keyed, lemma_keyed_last, lemma_keyed_push};
use crate::wire::value::{Ty, TyV};

verus! {

/// The binding for `name` in `frames`, searching innermost (last) first.
pub open spec fn lookup_in(frames: Seq<Map<Seq<char>, TyV>>, name: Seq<char>) -> Option<TyV>
    decreases frames.len(),
{
    if frames.len() == 0 {
        None
    } else if frames.last().contains_key(name) {
        Some(frames.last()[name])
    } else {
        lookup_in(frames.drop_last(), name)
    }
}

/// `frames` with `name` bound to `t` in the innermost frame.
pub open spec fn bind_inner(frames: Seq<Map<Seq<char>, TyV>>, name: Seq<char>, t: TyV) -> Seq<
    Map<Seq<char>, TyV>,
> {
    frames.update(frames.len() - 1, frames.last().insert(name, t))
}

/// `frames` with `name` bound to `t` in the root (first) frame.
pub open spec fn bind_root(frames: Seq<Map<Seq<char>, TyV>>, name: Seq<char>, t: TyV) -> Seq<
    Map<Seq<char>, TyV>,
> {
    frames.update(0, frames[0].insert(name, t))
}

/// The view of an optional binding.
pub open spec fn opt_ty(r: Option<&Ty>) -> Option<TyV> {
    match r {
        Some(t) => Some(t@),
        None => None,
    }
}

/// The maps of a list of frames.
pub open spec fn frames_v(s: Seq<Vec<(String, Ty)>>) -> Seq<Map<Seq<char>, TyV>> {
    Seq::new(s.len(), |i: int| keyed(s[i]@))
}

/// A stack of lexical scopes mapping value names to types or type schemes.
///
/// The root frame holds top-level bindings (functions, externs, and
/// constructors); `let`, lambda parameters, and match-arm patterns each
/// push a frame.
#[derive(Debug)]
pub struct Env {
    /// The root frame, in binding order.
    root: Vec<(String, Ty)>,
    /// The frames opened above the root, innermost last.
    scopes: Vec<Vec<(String, Ty)>>,
}

impl View for Env {
    type V = Seq<Map<Seq<char>, TyV>>;

    /// The frames, root first, innermost last; never empty.
    closed spec fn view(&self) -> Seq<Map<Seq<char>, TyV>> {
        seq![keyed(self.root@)] + frames_v(self.scopes@)
    }
}

impl Env {
    /// An environment holding only the (empty) root frame.
    pub fn new() -> (r: Self)
        ensures
            r@ == seq![Map::<Seq<char>, TyV>::empty()],
    {
        let r = Env { root: Vec::new(), scopes: Vec::new() };
        proof {
            assert(frames_v(r.scopes@) =~= Seq::<Map<Seq<char>, TyV>>::empty());
            assert(r@ =~= seq![Map::<Seq<char>, TyV>::empty()]);
        }
        r
    }

    /// The frames are never empty.
    pub proof fn lemma_nonempty(&self)
        ensures
            self@.len() >= 1,
    {
    }

    /// Opens a new innermost scope.
    pub fn push_scope(&mut self)
        ensures
            final(self)@ == old(self)@.push(Map::empty()),
    {
        self.scopes.push(Vec::new());
        proof {
            assert(frames_v(self.scopes@) =~= frames_v(old(self).scopes@).push(Map::empty()));
            assert(self@ =~= old(self)@.push(Map::empty()));
        }
    }

    /// Closes the innermost scope; the root frame is never closed.
    pub fn pop_scope(&mut self)
        requires
            old(self)@.len() > 1,
        ensures
            final(self)@ == old(self)@.drop_last(),
    {
        self.scopes.pop();
        proof {
            assert(frames_v(self.scopes@) =~= frames_v(old(self).scopes@).drop_last());
            assert(self@ =~= old(self)@.drop_last());
        }
    }

    /// The binding for `name`, searching innermost-first.
    pub fn lookup(&self, name: &str) -> (r: Option<&Ty>)
        ensures
            opt_ty(r) == lookup_in(self@, name@),
    {
        let mut i = self.scopes.len();
        proof {
            assert(self@.len() == self.scopes@.len() + 1);
            assert(self@.take(i + 1) =~= self@);
        }
        while i > 0
            invariant
                i <= self.scopes@.len(),
                lookup_in(self@, name@) == lookup_in(self@.take(i + 1), name@),
            decreases i,
        {
            let frame = &self.scopes[i - 1];
            let ghost f = self@.take(i + 1);
            proof {
                assert(self@[i as int] == frames_v(self.scopes@)[i - 1]);
                assert(f.last() == keyed(frame@));
                assert(f.drop_last() =~= self@.take(i as int));
            }
            match find_last(frame, name) {
                Some(k) => {
                    proof {
                        lemma_keyed_last(frame@, k as int, name@);
                    }
                    return Some(&frame[k].1);
                },
                None => {
                    proof {
                        lemma_keyed_last(frame@, -1, name@);
                    }
                },
            }
            i = i - 1;
        }
        let ghost f = self@.take(1);
        proof {
            assert(self@[0] == keyed(self.root@));
            assert(f.last() == keyed(self.root@));
            assert(f.drop_last() =~= Seq::<Map<Seq<char>, TyV>>::empty());
            assert(lookup_in(Seq::<Map<Seq<char>, TyV>>::empty(), name@) is None);
            assert(lookup_in(self@, name@) == lookup_in(f, name@));
        }
        match find_last(&self.root, name) {
            Some(k) => {
                proof {
                    lemma_keyed_last(self.root@, k as int, name@);
                }
                Some(&self.root[k].1)
            },
            None => {
                proof {
                    lemma_keyed_last(self.root@, -1, name@);
                }
                None
            },
        }
    }

    /// Binds `name` in the innermost scope. Returns `true` when an existing
    /// visible binding (in any frame) is shadowed, so the caller can warn.
    pub fn insert(&mut self, name: &str, ty: Ty) -> (r: bool)
        ensures
            r == lookup_in(old(self)@, name@) is Some,
            final(self)@ == bind_inner(old(self)@, name@, ty@),
    {
        let shadows = self.lookup(name).is_some();
        let key = String::from_str(name);
        if self.scopes.len() == 0 {
            proof {
                lemma_keyed_push(self.root@, (key, ty));
            }
            self.root.push((key, ty));
            proof {
                assert(frames_v(self.scopes@) =~= Seq::<Map<Seq<char>, TyV>>::empty());
                assert(self@ =~= bind_inner(old(self)@, name@, ty@));
            }
        } else {
            let mut frame = self.scopes.pop().unwrap();
            let ghost f0 = frame@;
            proof {
                lemma_keyed_push(frame@, (key, ty));
            }
            frame.push((key, ty));
            self.scopes.push(frame);
            proof {
                assert(frames_v(self.scopes@) =~= frames_v(old(self).scopes@).update(
                    old(self).scopes@.len() - 1,
                    keyed(f0).insert(name@, ty@),
                ));
                assert(self@ =~= bind_inner(old(self)@, name@, ty@));
            }
        }
        shadows
    }

    /// Binds `name` in the root frame regardless of open scopes. Top-level
    /// declarations are not inner bindings, so no shadowing is reported.
    pub fn insert_root(&mut self, name: &str, ty: Ty)
        ensures
            final(self)@ == bind_root(old(self)@, name@, ty@),
    {
        let key = String::from_str(name);
        proof {
            lemma_keyed_push(self.root@, (key, ty));
        }
        self.root.push((key, ty));
        proof {
            assert(self@ =~= bind_root(old(self)@, name@, ty@));
        }
    }
}

// ── laws ────────────────────────────────────────────────────────

/// A name bound in the innermost scope is what looking it up finds; every
/// other name is found as before.
pub proof fn law_lookup_after_insert(
    frames: Seq<Map<Seq<char>, TyV>>,
    name: Seq<char>,
    t: TyV,
    other: Seq<char>,
)
    requires
        frames.len() >= 1,
    ensures
        lookup_in(bind_inner(frames, name, t), name) == Some(t),
        other != name ==> lookup_in(bind_inner(frames, name, t), other) == lookup_in(frames, other),
{
    let b = bind_inner(frames, name, t);
    assert(b.drop_last() =~= frames.drop_last());
}

/// Closing a scope forgets exactly what was bound in it: after opening a
/// scope, binding names there, and closing it, every lookup is as before.
pub proof fn law_scope_restores(
    frames: Seq<Map<Seq<char>, TyV>>,
    inner: Map<Seq<char>, TyV>,
    name: Seq<char>,
)
    ensures
        lookup_in(frames.push(inner).drop_last(), name) == lookup_in(frames, name),
        inner.contains_key(name) ==> lookup_in(frames.push(inner), name) == Some(inner[name]),
        !inner.contains_key(name) ==> lookup_in(frames.push(inner), name) == lookup_in(frames, name),
{
    assert(frames.push(inner).drop_last() =~= frames);
}

/// A root binding is found unless a frame above the root binds the same
/// name; other names are found as before.
pub proof fn law_root_binding(
    frames: Seq<Map<Seq<char>, TyV>>,
    name: Seq<char>,
    t: TyV,
    other: Seq<char>,
)
    requires
        frames.len() >= 1,
    ensures
        lookup_in(bind_root(frames, name, t), name) == if lookup_in(frames.drop_first(), name) is Some {
            lookup_in(frames.drop_first(), name)
        } else {
            Some(t)
        },
        other != name ==> lookup_in(bind_root(frames, name, t), other) == lookup_in(frames, other),
    decreases frames.len(),
{
    lemma_lookup_split(frames, name);
    lemma_lookup_split(bind_root(frames, name, t), name);
    lemma_lookup_split(frames, other);
    lemma_lookup_split(bind_root(frames, name, t), other);
    assert(bind_root(frames, name, t).drop_first() =~= frames.drop_first());
}

/// Looking up in frames searches the frames above the root first, then the
/// root.
pub proof fn lemma_lookup_split(frames: Seq<Map<Seq<char>, TyV>>, name: Seq<char>)
    requires
        frames.len() >= 1,
    ensures
        lookup_in(frames, name) == if lookup_in(frames.drop_first(), name) is Some {
            lookup_in(frames.drop_first(), name)
        } else if frames[0].contains_key(name) {
            Some(frames[0][name])
        } else {
            None
        },
    decreases frames.len(),
{
    if frames.len() > 1 {
        lemma_lookup_split(frames.drop_last(), name);
        assert(frames.drop_last().drop_first() =~= frames.drop_first().drop_last());
        assert(frames.drop_first().last() == frames.last());
    } else {
        assert(frames.drop_first() =~= Seq::<Map<Seq<char>, TyV>>::empty());
        assert(frames.drop_last() =~= Seq::<Map<Seq<char>, TyV>>::empty());
    }
}

} // verus!
