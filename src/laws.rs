//! Laws of the whitespace normaliser, proved over its specification.
use vstd::prelude::*;
use crate::atom::{Atom, is_whitespace, is_indent, is_ephemeral, leaves};
use crate::capture::Capture;
use crate::capture::Placement;
use crate::collection::{AtomCollection, bucket, expand};
use crate::scopes::{ScopeMark, resolve_scopes, rewrite, resolve_atom, scan};
use crate::tree::SyntaxTree;
use crate::normalise::{
    merge_step, merge_from, normalise, in_delete, deletes_balanced,
    kept_leaves,
};

verus! {

/// No whitespace first, no whitespace followed by whitespace or an indentation
/// marker, and a `DeleteBegin` only in last place.
pub open spec fn merged_shape(new: Seq<Atom>) -> bool {
    &&& (new.len() > 0 ==> !is_whitespace(new[0]))
    &&& forall|i: int|
        0 <= i < new.len() - 1 && is_whitespace(#[trigger] new[i]) ==> !is_whitespace(new[i + 1])
            && !is_indent(new[i + 1])
    &&& forall|i: int| 0 <= i < new.len() - 1 ==> !(#[trigger] new[i] is DeleteBegin)
}

/// Softlines of either kind and multi-line-only literals: atoms that earlier
/// passes resolve.
pub open spec fn is_unresolved(a: Atom) -> bool {
    a is Softline || a is ScopedSoftline || a is MultilineOnlyLiteral
}

/// No unresolved atom, no `DeleteEnd`, and a `DeleteBegin` only in last place.
pub open spec fn merged_clean(new: Seq<Atom>) -> bool {
    forall|i: int|
        0 <= i < new.len() ==> !is_unresolved(#[trigger] new[i]) && !(new[i] is DeleteEnd) && (
        new[i] is DeleteBegin ==> i == new.len() - 1)
}

proof fn lemma_leaves_push(s: Seq<Atom>, a: Atom)
    ensures
        leaves(s.push(a)) == if a is Leaf {
            leaves(s).push(a)
        } else {
            leaves(s)
        },
{
    assert(s.push(a).drop_last() =~= s);
}

proof fn lemma_leaves_drop_last(s: Seq<Atom>)
    requires
        s.len() > 0,
        !(s.last() is Leaf),
    ensures
        leaves(s.drop_last()) == leaves(s),
{
}

proof fn lemma_step_shape(new: Seq<Atom>, next: Atom)
    requires
        merged_shape(new),
    ensures
        merged_shape(merge_step(new, next)),
        in_delete(merge_step(new, next)) == if in_delete(new) {
            !(next is DeleteEnd)
        } else {
            next is DeleteBegin
        },
        leaves(merge_step(new, next)) == if !in_delete(new) && next is Leaf {
            leaves(new).push(next)
        } else {
            leaves(new)
        },
{
    let r = merge_step(new, next);
    if new.len() == 0 {
        lemma_leaves_push(new, next);
    } else {
        let prev = new.last();
        let d = new.drop_last();
        lemma_leaves_push(new, next);
        if is_whitespace(prev) {
            lemma_leaves_drop_last(new);
            if is_whitespace(next) {
                lemma_leaves_push(d, next);
                assert(d.push(next).drop_last() =~= d);
            } else if is_indent(next) {
                lemma_leaves_push(d, next);
                lemma_leaves_push(d.push(next), prev);
                assert(r[r.len() - 2] == next);
            }
        } else if prev is DeleteBegin {
            lemma_leaves_drop_last(new);
        }
    }
}

proof fn lemma_step_clean(new: Seq<Atom>, next: Atom)
    requires
        merged_shape(new),
        merged_clean(new),
        !is_unresolved(next),
        in_delete(new) || !(next is DeleteEnd),
    ensures
        merged_clean(merge_step(new, next)),
{
    let r = merge_step(new, next);
    if new.len() > 0 && is_whitespace(new.last()) && is_indent(next) {
        assert(r[r.len() - 2] == next);
    }
}

proof fn lemma_merge_from(new: Seq<Atom>, rest: Seq<Atom>)
    requires
        merged_shape(new),
    ensures
        merged_shape(merge_from(new, rest)),
        leaves(merge_from(new, rest)) == leaves(new) + kept_leaves(rest, in_delete(new)),
    decreases rest.len(),
{
    if rest.len() == 0 {
        assert(leaves(new) + Seq::<Atom>::empty() =~= leaves(new));
    } else {
        let next = rest[0];
        let step = merge_step(new, next);
        lemma_step_shape(new, next);
        lemma_merge_from(step, rest.drop_first());
        if !in_delete(new) && next is Leaf {
            assert(leaves(new).push(next) + kept_leaves(rest.drop_first(), false) =~= leaves(new)
                + (seq![next] + kept_leaves(rest.drop_first(), false)));
        }
    }
}

proof fn lemma_merge_from_clean(new: Seq<Atom>, rest: Seq<Atom>)
    requires
        merged_shape(new),
        merged_clean(new),
        forall|i: int| 0 <= i < rest.len() ==> !is_unresolved(#[trigger] rest[i]),
        deletes_balanced(rest, in_delete(new)),
    ensures
        merged_clean(merge_from(new, rest)),
        !in_delete(merge_from(new, rest)),
    decreases rest.len(),
{
    if rest.len() > 0 {
        let next = rest[0];
        lemma_step_shape(new, next);
        lemma_step_clean(new, next);
        let tail = rest.drop_first();
        assert forall|i: int| 0 <= i < tail.len() implies !is_unresolved(#[trigger] tail[i]) by {
            assert(tail[i] == rest[i + 1]);
        }
        lemma_merge_from_clean(merge_step(new, next), tail);
    }
}

/// Leaf preservation: the leaves that come out of the normaliser are exactly
/// the leaves that went in, in order, less those inside deletion regions.
pub proof fn lemma_normalise_keeps_leaves(atoms: Seq<Atom>)
    ensures
        leaves(normalise(atoms)) == kept_leaves(atoms, false),
{
    let m = merge_from(Seq::empty(), atoms);
    lemma_merge_from(Seq::empty(), atoms);
    assert(leaves(Seq::<Atom>::empty()) + kept_leaves(atoms, false) =~= kept_leaves(atoms, false));
    if !(m.len() > 0 && m.last() is Hardline) {
        lemma_leaves_push(m, Atom::Hardline);
    }
}

/// Terminal newline: the normalised stream always ends with a `Hardline`.
pub proof fn lemma_normalise_ends_with_hardline(atoms: Seq<Atom>)
    ensures
        normalise(atoms).len() > 0,
        normalise(atoms).last() is Hardline,
{
}

/// No ephemeral atoms: when the input holds no unresolved softline or
/// multi-line-only literal and its deletion markers are balanced, the output
/// holds none of those and no deletion marker.
pub proof fn lemma_normalise_no_ephemeral(atoms: Seq<Atom>)
    requires
        forall|i: int| 0 <= i < atoms.len() ==> !is_unresolved(#[trigger] atoms[i]),
        deletes_balanced(atoms, false),
    ensures
        forall|i: int| 0 <= i < normalise(atoms).len() ==> !is_ephemeral(#[trigger] normalise(atoms)[i]),
{
    let m = merge_from(Seq::empty(), atoms);
    lemma_merge_from_clean(Seq::empty(), atoms);
    let r = normalise(atoms);
    assert forall|i: int| 0 <= i < r.len() implies !is_ephemeral(#[trigger] r[i]) by {
        if i < m.len() {
            assert(r[i] == m[i]);
        }
    }
}

/// Indentation locality: no whitespace atom stands right before an indentation marker.
pub proof fn lemma_normalise_indent_locality(atoms: Seq<Atom>)
    ensures
        forall|i: int|
            0 <= i < normalise(atoms).len() - 1 && is_whitespace(#[trigger] normalise(atoms)[i])
                ==> !is_indent(normalise(atoms)[i + 1]),
{
    let m = merge_from(Seq::empty(), atoms);
    lemma_merge_from(Seq::empty(), atoms);
    let r = normalise(atoms);
    assert forall|i: int| 0 <= i < r.len() - 1 && is_whitespace(#[trigger] r[i]) implies !is_indent(
        r[i + 1],
    ) by {
        assert(r[i] == m[i]);
        if i + 1 < m.len() {
            assert(r[i + 1] == m[i + 1]);
        }
    }
}

/// Whitespace dominance: no two whitespace atoms are adjacent in the output,
/// provided the merged stream does not end with a `Space` or `Blankline` (a
/// final `Hardline` would then follow one).
pub proof fn lemma_normalise_whitespace_dominance(atoms: Seq<Atom>)
    requires
        merge_from(Seq::empty(), atoms).len() == 0 || merge_from(Seq::empty(), atoms).last() is Hardline
            || !is_whitespace(merge_from(Seq::empty(), atoms).last()),
    ensures
        forall|i: int|
            0 <= i < normalise(atoms).len() - 1 && is_whitespace(#[trigger] normalise(atoms)[i])
                ==> !is_whitespace(normalise(atoms)[i + 1]),
{
    let m = merge_from(Seq::empty(), atoms);
    lemma_merge_from(Seq::empty(), atoms);
    let r = normalise(atoms);
    assert forall|i: int| 0 <= i < r.len() - 1 && is_whitespace(#[trigger] r[i]) implies !is_whitespace(
        r[i + 1],
    ) by {
        assert(r[i] == m[i]);
        if i + 1 < m.len() {
            assert(r[i + 1] == m[i + 1]);
        }
    }
}

proof fn lemma_leaves_concat(a: Seq<Atom>, b: Seq<Atom>)
    ensures
        leaves(a + b) == leaves(a) + leaves(b),
    decreases b.len(),
{
    if b.len() == 0 {
        assert(a + b =~= a);
        assert(leaves(a) + leaves(b) =~= leaves(a));
    } else {
        let bl = b.drop_last();
        lemma_leaves_concat(a, bl);
        assert((a + b).drop_last() =~= a + bl);
        assert((a + b).last() == b.last());
        if b.last() is Leaf {
            assert(leaves(a) + leaves(bl).push(b.last()) =~= (leaves(a) + leaves(bl)).push(b.last()));
        }
    }
}

proof fn lemma_bucket_no_leaves(t: Seq<(usize, Atom)>, id: usize)
    requires
        forall|k: int| 0 <= k < t.len() ==> !(#[trigger] t[k].1 is Leaf),
    ensures
        leaves(bucket(t, id)) == Seq::<Atom>::empty(),
    decreases t.len(),
{
    if t.len() > 0 {
        let d = t.drop_last();
        assert forall|k: int| 0 <= k < d.len() implies !(#[trigger] d[k].1 is Leaf) by {
            assert(d[k] == t[k]);
        }
        lemma_bucket_no_leaves(d, id);
        if t.last().0 == id {
            lemma_leaves_push(bucket(d, id), t.last().1);
        }
    }
}

/// The expansion pass keeps the leaves, in order, when the side tables hold no leaf.
pub proof fn lemma_expand_keeps_leaves(atoms: Seq<Atom>, pre: Seq<(usize, Atom)>, app: Seq<(usize, Atom)>)
    requires
        forall|k: int| 0 <= k < pre.len() ==> !(#[trigger] pre[k].1 is Leaf),
        forall|k: int| 0 <= k < app.len() ==> !(#[trigger] app[k].1 is Leaf),
    ensures
        leaves(expand(atoms, pre, app)) == leaves(atoms),
    decreases atoms.len(),
{
    if atoms.len() > 0 {
        let a = atoms.last();
        let d = atoms.drop_last();
        lemma_expand_keeps_leaves(d, pre, app);
        let tail = match a {
            Atom::Leaf { id, .. } => bucket(pre, id) + seq![a] + bucket(app, id),
            _ => seq![a],
        };
        lemma_leaves_concat(expand(d, pre, app), tail);
        lemma_leaves_push(Seq::empty(), a);
        assert(seq![a] =~= Seq::<Atom>::empty().push(a));
        match a {
            Atom::Leaf { id, .. } => {
                lemma_bucket_no_leaves(pre, id);
                lemma_bucket_no_leaves(app, id);
                lemma_leaves_concat(bucket(pre, id), seq![a]);
                lemma_leaves_concat(bucket(pre, id) + seq![a], bucket(app, id));
                assert(leaves(tail) =~= seq![a]);
                assert(leaves(d) + seq![a] =~= leaves(d).push(a));
            },
            _ => {
                assert(leaves(d) + leaves(tail) =~= leaves(d));
            },
        }
    }
}

proof fn lemma_rewrite(atoms: Seq<Atom>, owners: Seq<Option<(usize, usize)>>, closed: Seq<((usize, usize), bool)>, n: int)
    requires
        0 <= n <= atoms.len(),
    ensures
        leaves(rewrite(atoms, owners, closed, n)) == leaves(atoms.subrange(0, n)),
        forall|k: int|
            0 <= k < rewrite(atoms, owners, closed, n).len() ==> !(#[trigger] rewrite(
                atoms,
                owners,
                closed,
                n,
            )[k] is ScopedSoftline),
    decreases n,
{
    if n == 0 {
        assert(atoms.subrange(0, 0) =~= Seq::<Atom>::empty());
    } else {
        lemma_rewrite(atoms, owners, closed, n - 1);
        let prev = rewrite(atoms, owners, closed, n - 1);
        let a = atoms[n - 1];
        let r = resolve_atom(a, owners[n - 1], closed);
        lemma_leaves_concat(prev, r);
        assert(atoms.subrange(0, n).drop_last() =~= atoms.subrange(0, n - 1));
        lemma_leaves_push(Seq::empty(), a);
        lemma_leaves_push(Seq::empty(), Atom::Hardline);
        lemma_leaves_push(Seq::empty(), Atom::Space);
        assert(seq![a] =~= Seq::<Atom>::empty().push(a));
        assert(seq![Atom::Hardline] =~= Seq::<Atom>::empty().push(Atom::Hardline));
        assert(seq![Atom::Space] =~= Seq::<Atom>::empty().push(Atom::Space));
        if a is Leaf {
            assert(leaves(prev) + seq![a] =~= leaves(prev).push(a));
        } else {
            assert(leaves(prev) + leaves(r) =~= leaves(prev));
        }
        let s = prev + r;
        assert forall|k: int| 0 <= k < s.len() implies !(#[trigger] s[k] is ScopedSoftline) by {
            if k >= prev.len() {
                assert(s[k] == r[k - prev.len()]);
            } else {
                assert(s[k] == prev[k]);
            }
        }
    }
}

/// The scope resolver keeps every leaf, in order, and leaves no scoped softline.
pub proof fn lemma_resolve_scopes(atoms: Seq<Atom>, begin: Seq<ScopeMark>, end: Seq<ScopeMark>)
    ensures
        leaves(resolve_scopes(atoms, begin, end)) == leaves(atoms),
        forall|k: int|
            0 <= k < resolve_scopes(atoms, begin, end).len() ==> !(#[trigger] resolve_scopes(
                atoms,
                begin,
                end,
            )[k] is ScopedSoftline),
{
    let (_, owners, closed) = scan(atoms, begin, end);
    lemma_rewrite(atoms, owners, closed, atoms.len() as int);
    assert(atoms.subrange(0, atoms.len() as int) =~= atoms);
}

/// Leaf preservation across the passes after resolution: expansion, scope
/// resolution and normalisation keep the leaves of the collected stream, in
/// order, less those inside deletion regions, when the side tables hold no leaf.
pub proof fn lemma_pipeline_keeps_leaves(
    atoms: Seq<Atom>,
    pre: Seq<(usize, Atom)>,
    app: Seq<(usize, Atom)>,
    begin: Seq<ScopeMark>,
    end: Seq<ScopeMark>,
)
    requires
        forall|k: int| 0 <= k < pre.len() ==> !(#[trigger] pre[k].1 is Leaf),
        forall|k: int| 0 <= k < app.len() ==> !(#[trigger] app[k].1 is Leaf),
    ensures
        leaves(resolve_scopes(expand(atoms, pre, app), begin, end)) == leaves(atoms),
        leaves(normalise(resolve_scopes(expand(atoms, pre, app), begin, end))) == kept_leaves(
            resolve_scopes(expand(atoms, pre, app), begin, end),
            false,
        ),
{
    lemma_expand_keeps_leaves(atoms, pre, app);
    lemma_resolve_scopes(expand(atoms, pre, app), begin, end);
    lemma_normalise_keeps_leaves(resolve_scopes(expand(atoms, pre, app), begin, end));
}

/// A capture adds to the side tables neither a leaf nor an unresolved softline
/// or multi-line-only literal.
pub proof fn lemma_capture_adds_no_leaves(
    c: AtomCollection,
    t: SyntaxTree,
    cap: Capture,
    side: Placement,
    node: int,
    delimiter: Seq<char>,
    scope: Seq<char>,
)
    ensures
        forall|k: int|
            0 <= k < c.added(t, cap, side, node, delimiter, scope).len() ==> {
                let a = (#[trigger] c.added(t, cap, side, node, delimiter, scope)[k]).1;
                !(a is Leaf) && !(a is Softline) && !(a is MultilineOnlyLiteral)
            },
{
}

} // verus!
