//! The atom model: the tagged tokens that every pass of the pipeline reads and writes.
use vstd::prelude::*;

verus! {

/// One element of the formatter's intermediate token stream.
#[derive(Debug, Clone)]
pub enum Atom {
    /// A terminal token of the source, with the id of the node it came from.
    Leaf { content: String, id: usize },
    /// Inserted text, such as a delimiter.
    Literal(String),
    /// Text that is kept only when the parent node spans several lines.
    MultilineOnlyLiteral(String),
    Space,
    Hardline,
    Blankline,
    /// Becomes a line break in a multi-line parent, else a space when spaced, else nothing.
    Softline { spaced: bool },
    /// A softline whose fate is decided by the enclosing scope named `scope_id`.
    ScopedSoftline { id: usize, scope_id: String, spaced: bool },
    IndentStart,
    IndentEnd,
    DeleteBegin,
    DeleteEnd,
}

/// An atom with its text seen as characters.
pub enum AtomView {
    Leaf { content: Seq<char>, id: usize },
    Literal(Seq<char>),
    MultilineOnlyLiteral(Seq<char>),
    Space,
    Hardline,
    Blankline,
    Softline { spaced: bool },
    ScopedSoftline { id: usize, scope_id: Seq<char>, spaced: bool },
    IndentStart,
    IndentEnd,
    DeleteBegin,
    DeleteEnd,
}

impl View for Atom {
    type V = AtomView;

    open spec fn view(&self) -> AtomView {
        match *self {
            Atom::Leaf { content, id } => AtomView::Leaf { content: content@, id },
            Atom::Literal(l) => AtomView::Literal(l@),
            Atom::MultilineOnlyLiteral(l) => AtomView::MultilineOnlyLiteral(l@),
            Atom::Space => AtomView::Space,
            Atom::Hardline => AtomView::Hardline,
            Atom::Blankline => AtomView::Blankline,
            Atom::Softline { spaced } => AtomView::Softline { spaced },
            Atom::ScopedSoftline { id, scope_id, spaced } => AtomView::ScopedSoftline {
                id,
                scope_id: scope_id@,
                spaced,
            },
            Atom::IndentStart => AtomView::IndentStart,
            Atom::IndentEnd => AtomView::IndentEnd,
            Atom::DeleteBegin => AtomView::DeleteBegin,
            Atom::DeleteEnd => AtomView::DeleteEnd,
        }
    }
}

/// Structural equality of atoms, comparing text by its characters.
pub open spec fn atom_eq(a: Atom, b: Atom) -> bool {
    match (a, b) {
        (Atom::Leaf { content: c1, id: i1 }, Atom::Leaf { content: c2, id: i2 }) => c1@ == c2@
            && i1 == i2,
        (Atom::Literal(l1), Atom::Literal(l2)) => l1@ == l2@,
        (Atom::MultilineOnlyLiteral(l1), Atom::MultilineOnlyLiteral(l2)) => l1@ == l2@,
        (Atom::Space, Atom::Space) => true,
        (Atom::Hardline, Atom::Hardline) => true,
        (Atom::Blankline, Atom::Blankline) => true,
        (Atom::Softline { spaced: s1 }, Atom::Softline { spaced: s2 }) => s1 == s2,
        (
            Atom::ScopedSoftline { id: i1, scope_id: c1, spaced: s1 },
            Atom::ScopedSoftline { id: i2, scope_id: c2, spaced: s2 },
        ) => i1 == i2 && c1@ == c2@ && s1 == s2,
        (Atom::IndentStart, Atom::IndentStart) => true,
        (Atom::IndentEnd, Atom::IndentEnd) => true,
        (Atom::DeleteBegin, Atom::DeleteBegin) => true,
        (Atom::DeleteEnd, Atom::DeleteEnd) => true,
        _ => false,
    }
}

impl PartialEq for Atom {
    fn eq(&self, o: &Atom) -> (r: bool) {
        match (self, o) {
            (Atom::Leaf { content: c1, id: i1 }, Atom::Leaf { content: c2, id: i2 }) => *c1 == *c2
                && *i1 == *i2,
            (Atom::Literal(l1), Atom::Literal(l2)) => *l1 == *l2,
            (Atom::MultilineOnlyLiteral(l1), Atom::MultilineOnlyLiteral(l2)) => *l1 == *l2,
            (Atom::Space, Atom::Space) => true,
            (Atom::Hardline, Atom::Hardline) => true,
            (Atom::Blankline, Atom::Blankline) => true,
            (Atom::Softline { spaced: s1 }, Atom::Softline { spaced: s2 }) => *s1 == *s2,
            (
                Atom::ScopedSoftline { id: i1, scope_id: c1, spaced: s1 },
                Atom::ScopedSoftline { id: i2, scope_id: c2, spaced: s2 },
            ) => *i1 == *i2 && *c1 == *c2 && *s1 == *s2,
            (Atom::IndentStart, Atom::IndentStart) => true,
            (Atom::IndentEnd, Atom::IndentEnd) => true,
            (Atom::DeleteBegin, Atom::DeleteBegin) => true,
            (Atom::DeleteEnd, Atom::DeleteEnd) => true,
            _ => false,
        }
    }
}

impl vstd::std_specs::cmp::PartialEqSpecImpl for Atom {
    open spec fn obeys_eq_spec() -> bool {
        true
    }

    open spec fn eq_spec(&self, o: &Atom) -> bool {
        atom_eq(*self, *o)
    }
}

/// `Space`, `Hardline` or `Blankline`.
pub open spec fn is_whitespace(a: Atom) -> bool {
    a is Space || a is Hardline || a is Blankline
}

/// `IndentStart` or `IndentEnd`.
pub open spec fn is_indent(a: Atom) -> bool {
    a is IndentStart || a is IndentEnd
}

/// Atoms that must not survive the whole pipeline.
pub open spec fn is_ephemeral(a: Atom) -> bool {
    a is Softline || a is ScopedSoftline || a is MultilineOnlyLiteral || a is DeleteBegin
        || a is DeleteEnd
}

/// The dominance order `Blankline > Hardline > Space`: does `next` strictly dominate `prev`?
pub open spec fn dominates(next: Atom, prev: Atom) -> bool {
    match next {
        Atom::Hardline => prev is Space,
        Atom::Blankline => !(prev is Blankline),
        _ => false,
    }
}

/// The leaf atoms of a sequence, in order.
pub open spec fn leaves(s: Seq<Atom>) -> Seq<Atom>
    decreases s.len(),
{
    if s.len() == 0 {
        Seq::empty()
    } else if s.last() is Leaf {
        leaves(s.drop_last()).push(s.last())
    } else {
        leaves(s.drop_last())
    }
}

impl Atom {
    /// A copy of the atom, equal to it field by field.
    pub fn duplicate(&self) -> (r: Atom)
        ensures
            r == *self,
    {
        match self {
            Atom::Leaf { content, id } => Atom::Leaf { content: content.clone(), id: *id },
            Atom::Literal(l) => Atom::Literal(l.clone()),
            Atom::MultilineOnlyLiteral(l) => Atom::MultilineOnlyLiteral(l.clone()),
            Atom::Space => Atom::Space,
            Atom::Hardline => Atom::Hardline,
            Atom::Blankline => Atom::Blankline,
            Atom::Softline { spaced } => Atom::Softline { spaced: *spaced },
            Atom::ScopedSoftline { id, scope_id, spaced } => Atom::ScopedSoftline {
                id: *id,
                scope_id: scope_id.clone(),
                spaced: *spaced,
            },
            Atom::IndentStart => Atom::IndentStart,
            Atom::IndentEnd => Atom::IndentEnd,
            Atom::DeleteBegin => Atom::DeleteBegin,
            Atom::DeleteEnd => Atom::DeleteEnd,
        }
    }
}

} // verus!
