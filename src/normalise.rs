//! The whitespace normaliser: merges adjacent whitespace by dominance, moves
//! indentation markers before whitespace, cuts deletion regions and ends the
//! stream with a line break.
use vstd::prelude::*;
use crate::atom::{Atom, dominates, is_whitespace, is_indent};

verus! {

/// The effect of one incoming atom on the sequence built so far.
pub open spec fn merge_step(new: Seq<Atom>, next: Atom) -> Seq<Atom> {
    if new.len() == 0 {
        if is_whitespace(next) {
            new
        } else {
            new.push(next)
        }
    } else {
        let prev = new.last();
        if is_whitespace(prev) {
            if is_whitespace(next) {
                if dominates(next, prev) {
                    new.drop_last().push(next)
                } else {
                    new
                }
            } else if is_indent(next) {
                new.drop_last().push(next).push(prev)
            } else {
                new.push(next)
            }
        } else if prev is DeleteBegin {
            if next is DeleteEnd {
                new.drop_last()
            } else {
                new
            }
        } else {
            new.push(next)
        }
    }
}

/// Feeds every atom of `rest`, in order, into the sequence `new`.
pub open spec fn merge_from(new: Seq<Atom>, rest: Seq<Atom>) -> Seq<Atom>
    decreases rest.len(),
{
    if rest.len() == 0 {
        new
    } else {
        merge_from(merge_step(new, rest[0]), rest.drop_first())
    }
}

/// Appends a `Hardline` unless the sequence already ends with one.
pub open spec fn with_final_hardline(s: Seq<Atom>) -> Seq<Atom> {
    if s.len() > 0 && s.last() is Hardline {
        s
    } else {
        s.push(Atom::Hardline)
    }
}

/// The whole normalisation of an atom stream.
pub open spec fn normalise(s: Seq<Atom>) -> Seq<Atom> {
    with_final_hardline(merge_from(Seq::empty(), s))
}

/// Whether the last atom built so far opens a deletion region.
pub open spec fn in_delete(new: Seq<Atom>) -> bool {
    new.len() > 0 && new.last() is DeleteBegin
}

/// Every `DeleteBegin` is closed by a later `DeleteEnd` and no `DeleteEnd` stands
/// outside a region; `inside` says whether a region is open at the start.
pub open spec fn deletes_balanced(rest: Seq<Atom>, inside: bool) -> bool
    decreases rest.len(),
{
    if rest.len() == 0 {
        !inside
    } else {
        let a = rest[0];
        if inside {
            deletes_balanced(rest.drop_first(), !(a is DeleteEnd))
        } else if a is DeleteEnd {
            false
        } else {
            deletes_balanced(rest.drop_first(), a is DeleteBegin)
        }
    }
}

/// The leaves of `rest` that lie outside deletion regions, in order; `inside`
/// says whether a region is open at the start.
pub open spec fn kept_leaves(rest: Seq<Atom>, inside: bool) -> Seq<Atom>
    decreases rest.len(),
{
    if rest.len() == 0 {
        Seq::empty()
    } else {
        let a = rest[0];
        if inside {
            kept_leaves(rest.drop_first(), !(a is DeleteEnd))
        } else if a is DeleteBegin {
            kept_leaves(rest.drop_first(), true)
        } else if a is Leaf {
            seq![a] + kept_leaves(rest.drop_first(), false)
        } else {
            kept_leaves(rest.drop_first(), false)
        }
    }
}

/// Whether `Blankline > Hardline > Space` lets `next` replace `prev`.
pub fn is_dominant(next: &Atom, prev: &Atom) -> (r: bool)
    requires
        is_whitespace(*next),
    ensures
        r == dominates(*next, *prev),
{
    match next {
        Atom::Hardline => matches!(prev, Atom::Space),
        Atom::Blankline => !matches!(prev, Atom::Blankline),
        _ => false,
    }
}

/// Merges `next` into a non-empty sequence whose last atom is `prev`.
pub fn post_process_internal(new_vec: &mut Vec<Atom>, prev: Atom, next: Atom)
    requires
        old(new_vec)@.len() > 0,
        prev == old(new_vec)@.last(),
    ensures
        final(new_vec)@ == merge_step(old(new_vec)@, next),
{
    match prev {
        Atom::Space | Atom::Hardline | Atom::Blankline => {
            match next {
                Atom::Space | Atom::Hardline | Atom::Blankline => {
                    if is_dominant(&next, &prev) {
                        new_vec.pop();
                        new_vec.push(next);
                    }
                },
                Atom::IndentStart | Atom::IndentEnd => {
                    new_vec.pop();
                    new_vec.push(next);
                    new_vec.push(prev);
                },
                _ => new_vec.push(next),
            }
        },
        Atom::DeleteBegin => {
            if matches!(next, Atom::DeleteEnd) {
                new_vec.pop();
            }
        },
        _ => new_vec.push(next),
    }
    proof {
        assert(new_vec@ =~= merge_step(old(new_vec)@, next));
    }
}

/// Appends a `Hardline` unless the vector already ends with one.
pub fn ensure_final_hardline(v: &mut Vec<Atom>)
    ensures
        final(v)@ == with_final_hardline(old(v)@),
{
    let n = v.len();
    if n > 0 && matches!(v[n - 1], Atom::Hardline) {
    } else {
        v.push(Atom::Hardline);
    }
}

/// Runs the whitespace merge over `atoms` and terminates the result with a line break.
pub(crate) fn normalise_atoms(atoms: &Vec<Atom>) -> (r: Vec<Atom>)
    ensures
        r@ == normalise(atoms@),
{
    let mut new_vec: Vec<Atom> = Vec::new();
    let mut i: usize = 0;
    proof {
        assert(atoms@.subrange(0, atoms@.len() as int) =~= atoms@);
        assert(new_vec@ =~= Seq::<Atom>::empty());
    }
    while i < atoms.len()
        invariant
            i <= atoms@.len(),
            merge_from(new_vec@, atoms@.subrange(i as int, atoms@.len() as int)) == merge_from(
                Seq::empty(),
                atoms@,
            ),
        decreases atoms@.len() - i,
    {
        let ghost before = new_vec@;
        let next = atoms[i].duplicate();
        let n = new_vec.len();
        if n > 0 {
            let prev = new_vec[n - 1].duplicate();
            post_process_internal(&mut new_vec, prev, next);
        } else {
            match next {
                Atom::Space | Atom::Hardline | Atom::Blankline => {},
                _ => new_vec.push(next),
            }
            assert(new_vec@ =~= merge_step(before, atoms@[i as int]));
        }
        proof {
            let rest = atoms@.subrange(i as int, atoms@.len() as int);
            assert(rest.drop_first() =~= atoms@.subrange(i + 1, atoms@.len() as int));
        }
        i = i + 1;
    }
    proof {
        assert(atoms@.subrange(i as int, atoms@.len() as int) =~= Seq::<Atom>::empty());
    }
    ensure_final_hardline(&mut new_vec);
    new_vec
}

} // verus!
