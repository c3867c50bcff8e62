//! The scope resolver: turns each scoped softline into a line break, a space or
//! nothing, by whether the scope that encloses it spans several lines.
use vstd::prelude::*;
use crate::atom::Atom;

verus! {

/// A scope boundary registered on a leaf: (leaf id, row, scope id).
pub type ScopeMark = (usize, usize, String);

/// An open scope: (scope id, row where it starts, key naming this opening).
pub type ScopeFrame = (String, usize, (usize, usize));

/// Index of the innermost open frame of `scope`, if any.
pub open spec fn top_frame(frames: Seq<ScopeFrame>, scope: Seq<char>) -> Option<int>
    decreases frames.len(),
{
    if frames.len() == 0 {
        None
    } else if frames.last().0@ == scope {
        Some(frames.len() - 1)
    } else {
        top_frame(frames.drop_last(), scope)
    }
}

/// Opens, in table order, every scope that `begin` registers on leaf `id`,
/// found at position `pos` of the stream.
pub open spec fn open_frames(frames: Seq<ScopeFrame>, begin: Seq<ScopeMark>, id: usize, pos: usize) -> Seq<ScopeFrame>
    decreases begin.len(),
{
    if begin.len() == 0 {
        frames
    } else {
        let f = open_frames(frames, begin.drop_last(), id, pos);
        let e = begin.last();
        if e.0 == id {
            f.push((e.2, e.1, (pos, (begin.len() - 1) as usize)))
        } else {
            f
        }
    }
}

/// Closes, in table order, every scope that `end` registers on leaf `id`:
/// the innermost frame of that scope leaves the stack and its key is recorded
/// with whether the scope spans several lines.
pub open spec fn close_frames(
    frames: Seq<ScopeFrame>,
    closed: Seq<((usize, usize), bool)>,
    end: Seq<ScopeMark>,
    id: usize,
) -> (Seq<ScopeFrame>, Seq<((usize, usize), bool)>)
    decreases end.len(),
{
    if end.len() == 0 {
        (frames, closed)
    } else {
        let (f, c) = close_frames(frames, closed, end.drop_last(), id);
        let e = end.last();
        if e.0 == id {
            match top_frame(f, e.2@) {
                Some(j) => (f.remove(j), c.push((f[j].2, f[j].1 != e.1))),
                None => (f, c),
            }
        } else {
            (f, c)
        }
    }
}

/// The classification pass over a stream: the frames still open, for each
/// position the frame a scoped softline there belongs to, and the closed frames.
pub open spec fn scan(atoms: Seq<Atom>, begin: Seq<ScopeMark>, end: Seq<ScopeMark>) -> (
    Seq<ScopeFrame>,
    Seq<Option<(usize, usize)>>,
    Seq<((usize, usize), bool)>,
)
    decreases atoms.len(),
{
    if atoms.len() == 0 {
        (Seq::empty(), Seq::empty(), Seq::empty())
    } else {
        let (f, a, c) = scan(atoms.drop_last(), begin, end);
        let pos = (atoms.len() - 1) as usize;
        match atoms.last() {
            Atom::Leaf { id, .. } => {
                let f1 = open_frames(f, begin, id, pos);
                let (f2, c2) = close_frames(f1, c, end, id);
                (f2, a.push(None), c2)
            },
            Atom::ScopedSoftline { scope_id, .. } => {
                let owner = match top_frame(f, scope_id@) {
                    Some(j) => Some(f[j].2),
                    None => None,
                };
                (f, a.push(owner), c)
            },
            _ => (f, a.push(None), c),
        }
    }
}

/// Whether the frame named `key` closed, and if so whether it spans several lines.
pub open spec fn closed_multiline(closed: Seq<((usize, usize), bool)>, key: (usize, usize)) -> Option<bool>
    decreases closed.len(),
{
    if closed.len() == 0 {
        None
    } else if closed.last().0 == key {
        Some(closed.last().1)
    } else {
        closed_multiline(closed.drop_last(), key)
    }
}

/// What an atom becomes: a scoped softline whose scope closed becomes a
/// `Hardline` if the scope is multi-line, else a `Space` if spaced, else
/// nothing; one whose scope never opened or closed is dropped; any other atom stays.
pub open spec fn resolve_atom(
    a: Atom,
    owner: Option<(usize, usize)>,
    closed: Seq<((usize, usize), bool)>,
) -> Seq<Atom> {
    match a {
        Atom::ScopedSoftline { spaced, .. } => match owner {
            Some(key) => match closed_multiline(closed, key) {
                Some(multiline) => if multiline {
                    seq![Atom::Hardline]
                } else if spaced {
                    seq![Atom::Space]
                } else {
                    Seq::empty()
                },
                None => Seq::empty(),
            },
            None => Seq::empty(),
        },
        _ => seq![a],
    }
}

/// The rewrite of the first `n` atoms.
pub open spec fn rewrite(
    atoms: Seq<Atom>,
    owners: Seq<Option<(usize, usize)>>,
    closed: Seq<((usize, usize), bool)>,
    n: int,
) -> Seq<Atom>
    decreases n,
{
    if n <= 0 {
        Seq::empty()
    } else {
        rewrite(atoms, owners, closed, n - 1) + resolve_atom(atoms[n - 1], owners[n - 1], closed)
    }
}

/// The scope resolver on a whole stream.
pub open spec fn resolve_scopes(atoms: Seq<Atom>, begin: Seq<ScopeMark>, end: Seq<ScopeMark>) -> Seq<Atom> {
    let (_, owners, closed) = scan(atoms, begin, end);
    rewrite(atoms, owners, closed, atoms.len() as int)
}

proof fn lemma_scan_owners_len(atoms: Seq<Atom>, begin: Seq<ScopeMark>, end: Seq<ScopeMark>)
    ensures
        scan(atoms, begin, end).1.len() == atoms.len(),
    decreases atoms.len(),
{
    if atoms.len() > 0 {
        lemma_scan_owners_len(atoms.drop_last(), begin, end);
    }
}

fn find_top(frames: &Vec<ScopeFrame>, scope: &String) -> (r: Option<usize>)
    ensures
        match r {
            Some(j) => top_frame(frames@, scope@) == Some(j as int),
            None => top_frame(frames@, scope@) is None,
        },
        r is Some ==> r->0 < frames@.len(),
{
    let mut j: usize = frames.len();
    proof {
        assert(frames@.subrange(0, j as int) =~= frames@);
    }
    while j > 0
        invariant
            j <= frames@.len(),
            top_frame(frames@, scope@) == top_frame(frames@.subrange(0, j as int), scope@),
        decreases j,
    {
        proof {
            assert(frames@.subrange(0, j as int).drop_last() =~= frames@.subrange(0, j - 1));
        }
        if frames[j - 1].0 == *scope {
            return Some(j - 1);
        }
        j = j - 1;
    }
    None
}

fn find_closed(closed: &Vec<((usize, usize), bool)>, key: (usize, usize)) -> (r: Option<bool>)
    ensures
        r == closed_multiline(closed@, key),
{
    let mut j: usize = closed.len();
    proof {
        assert(closed@.subrange(0, j as int) =~= closed@);
    }
    while j > 0
        invariant
            j <= closed@.len(),
            closed_multiline(closed@, key) == closed_multiline(closed@.subrange(0, j as int), key),
        decreases j,
    {
        proof {
            assert(closed@.subrange(0, j as int).drop_last() =~= closed@.subrange(0, j - 1));
        }
        if closed[j - 1].0.0 == key.0 && closed[j - 1].0.1 == key.1 {
            return Some(closed[j - 1].1);
        }
        j = j - 1;
    }
    None
}

fn open_scopes_at(frames: &mut Vec<ScopeFrame>, begin: &Vec<ScopeMark>, id: usize, pos: usize)
    ensures
        final(frames)@ == open_frames(old(frames)@, begin@, id, pos),
{
    let ghost start = frames@;
    let mut k: usize = 0;
    while k < begin.len()
        invariant
            k <= begin@.len(),
            frames@ == open_frames(start, begin@.subrange(0, k as int), id, pos),
        decreases begin@.len() - k,
    {
        proof {
            assert(begin@.subrange(0, k + 1).drop_last() =~= begin@.subrange(0, k as int));
        }
        if begin[k].0 == id {
            frames.push((begin[k].2.clone(), begin[k].1, (pos, k)));
        }
        k = k + 1;
    }
    proof {
        assert(begin@.subrange(0, k as int) =~= begin@);
    }
}

fn close_scopes_at(
    frames: &mut Vec<ScopeFrame>,
    closed: &mut Vec<((usize, usize), bool)>,
    end: &Vec<ScopeMark>,
    id: usize,
)
    ensures
        (final(frames)@, final(closed)@) == close_frames(old(frames)@, old(closed)@, end@, id),
{
    let ghost f0 = frames@;
    let ghost c0 = closed@;
    let mut k: usize = 0;
    while k < end.len()
        invariant
            k <= end@.len(),
            (frames@, closed@) == close_frames(f0, c0, end@.subrange(0, k as int), id),
        decreases end@.len() - k,
    {
        proof {
            assert(end@.subrange(0, k + 1).drop_last() =~= end@.subrange(0, k as int));
        }
        if end[k].0 == id {
            match find_top(frames, &end[k].2) {
                Some(j) => {
                    let frame = frames.remove(j);
                    closed.push((frame.2, frame.1 != end[k].1));
                },
                None => {},
            }
        }
        k = k + 1;
    }
    proof {
        assert(end@.subrange(0, k as int) =~= end@);
    }
}

/// The scope resolver: classifies every scoped softline by the scope that
/// encloses it, then rewrites the stream.
pub(crate) fn resolve_scoped_softlines(
    atoms: &Vec<Atom>,
    begin: &Vec<ScopeMark>,
    end: &Vec<ScopeMark>,
) -> (r: Vec<Atom>)
    ensures
        r@ == resolve_scopes(atoms@, begin@, end@),
{
    let mut frames: Vec<ScopeFrame> = Vec::new();
    let mut owners: Vec<Option<(usize, usize)>> = Vec::new();
    let mut closed: Vec<((usize, usize), bool)> = Vec::new();
    let mut i: usize = 0;
    while i < atoms.len()
        invariant
            i <= atoms@.len(),
            (frames@, owners@, closed@) == scan(atoms@.subrange(0, i as int), begin@, end@),
        decreases atoms@.len() - i,
    {
        proof {
            assert(atoms@.subrange(0, i + 1).drop_last() =~= atoms@.subrange(0, i as int));
        }
        match &atoms[i] {
            Atom::Leaf { id, .. } => {
                open_scopes_at(&mut frames, begin, *id, i);
                close_scopes_at(&mut frames, &mut closed, end, *id);
                owners.push(None);
            },
            Atom::ScopedSoftline { scope_id, .. } => {
                let owner = match find_top(&frames, scope_id) {
                    Some(j) => Some(frames[j].2),
                    None => None,
                };
                owners.push(owner);
            },
            _ => {
                owners.push(None);
            },
        }
        i = i + 1;
    }
    proof {
        assert(atoms@.subrange(0, i as int) =~= atoms@);
        lemma_scan_owners_len(atoms@, begin@, end@);
    }
    let mut out: Vec<Atom> = Vec::new();
    let mut i: usize = 0;
    while i < atoms.len()
        invariant
            i <= atoms@.len(),
            owners@.len() == atoms@.len(),
            (frames@, owners@, closed@) == scan(atoms@, begin@, end@),
            out@ == rewrite(atoms@, owners@, closed@, i as int),
        decreases atoms@.len() - i,
    {
        let ghost before = out@;
        match &atoms[i] {
            Atom::ScopedSoftline { spaced, .. } => {
                match owners[i] {
                    Some(key) => match find_closed(&closed, key) {
                        Some(multiline) => {
                            if multiline {
                                out.push(Atom::Hardline);
                            } else if *spaced {
                                out.push(Atom::Space);
                            }
                        },
                        None => {},
                    },
                    None => {},
                }
            },
            a => {
                out.push(a.duplicate());
            },
        }
        assert(out@ =~= before + resolve_atom(atoms@[i as int], owners@[i as int], closed@));
        i = i + 1;
    }
    out
}

} // verus!
