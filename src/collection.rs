//! The atom collection: leaf atoms in source order, the atoms that captures
//! attach before and after leaves, and the scope boundaries, with the passes
//! that turn them into the final atom stream.
use vstd::prelude::*;
use crate::atom::{Atom, AtomView};
use crate::capture::{
    Capture, Directive, Placement, capture_of, capture_from_name, needs_delimiter,
    needs_scope_id, makes_scoped_softline,
};
use crate::normalise::{normalise, normalise_atoms};
use crate::scopes::{ScopeMark, resolve_scopes, resolve_scoped_softlines};
use crate::tree::{SyntaxTree, node_ok};
use crate::scanner::{
    multi_line_ids, break_ids,
    detect_multi_line_nodes, detect_blank_lines_before, detect_line_break_before_and_after,
};

verus! {

/// Why a capture cannot be resolved.
#[derive(Debug)]
pub enum FormatterError {
    /// The capture name is not one the formatter knows.
    UnknownCapture(String),
    /// The named capture needs a delimiter and none was given.
    MissingDelimiter(String),
    /// The named capture needs a scope id and none was given.
    MissingScopeId(String),
}

/// The state of formatting one tree.
#[derive(Debug)]
pub struct AtomCollection {
    pub atoms: Vec<Atom>,
    /// (leaf id, atom) in insertion order: atoms that go before that leaf.
    pub prepend: Vec<(usize, Atom)>,
    /// (leaf id, atom) in insertion order: atoms that go after that leaf.
    pub append: Vec<(usize, Atom)>,
    pub specified_leaf_nodes: Vec<usize>,
    pub multi_line_nodes: Vec<usize>,
    pub blank_lines_before: Vec<usize>,
    pub line_break_before: Vec<usize>,
    pub line_break_after: Vec<usize>,
    pub scope_begin: Vec<ScopeMark>,
    pub scope_end: Vec<ScopeMark>,
    /// The last id handed to a scoped softline.
    pub counter: usize,
}

/// The atoms of a side table, in insertion order, with their leaf ids.
pub open spec fn entries_view(t: Seq<(usize, Atom)>) -> Seq<(usize, AtomView)> {
    t.map_values(|e: (usize, Atom)| (e.0, e.1@))
}

/// The scope boundaries of a table, with scope ids as characters.
pub open spec fn marks_view(t: Seq<ScopeMark>) -> Seq<(usize, usize, Seq<char>)> {
    t.map_values(|e: ScopeMark| (e.0, e.1, e.2@))
}

/// The atoms registered for leaf `id` in a side table, in insertion order.
pub open spec fn bucket(t: Seq<(usize, Atom)>, id: usize) -> Seq<Atom>
    decreases t.len(),
{
    if t.len() == 0 {
        Seq::empty()
    } else if t.last().0 == id {
        bucket(t.drop_last(), id).push(t.last().1)
    } else {
        bucket(t.drop_last(), id)
    }
}

/// The expansion pass: each leaf preceded by its prepended atoms and followed
/// by its appended atoms; other atoms pass through.
pub open spec fn expand(atoms: Seq<Atom>, pre: Seq<(usize, Atom)>, app: Seq<(usize, Atom)>) -> Seq<Atom>
    decreases atoms.len(),
{
    if atoms.len() == 0 {
        Seq::empty()
    } else {
        let a = atoms.last();
        expand(atoms.drop_last(), pre, app) + match a {
            Atom::Leaf { id, .. } => bucket(pre, id) + seq![a] + bucket(app, id),
            _ => seq![a],
        }
    }
}

/// Walking up from node `n`, the nearest ancestor whose id is in `opaque`,
/// or `orig` when there is none.
pub open spec fn opaque_ancestor(t: SyntaxTree, opaque: Seq<usize>, n: int, orig: int) -> int
    decreases n,
{
    if 0 <= n < t.nodes@.len() {
        match t.nodes@[n].parent {
            Some(p) => if p < n {
                if opaque.contains(t.nodes@[p as int].id) {
                    p as int
                } else {
                    opaque_ancestor(t, opaque, p as int, orig)
                }
            } else {
                orig
            },
            None => orig,
        }
    } else {
        orig
    }
}

/// Whether `ids` holds `x`.
fn has_id(ids: &Vec<usize>, x: usize) -> (r: bool)
    ensures
        r == ids@.contains(x),
{
    let mut k: usize = 0;
    while k < ids.len()
        invariant
            k <= ids@.len(),
            forall|j: int| 0 <= j < k ==> ids@[j] != x,
        decreases ids@.len() - k,
    {
        if ids[k] == x {
            return true;
        }
        k = k + 1;
    }
    false
}

impl AtomCollection {
    /// Everything but the side tables and the counter is as in `o`.
    pub open spec fn same_facts(&self, o: &AtomCollection) -> bool {
        &&& self.atoms == o.atoms
        &&& self.specified_leaf_nodes == o.specified_leaf_nodes
        &&& self.multi_line_nodes == o.multi_line_nodes
        &&& self.blank_lines_before == o.blank_lines_before
        &&& self.line_break_before == o.line_break_before
        &&& self.line_break_after == o.line_break_after
    }

    /// The node that stands for leaf `n`: its nearest opaque ancestor, or itself.
    pub open spec fn target(&self, t: SyntaxTree, n: int) -> int {
        opaque_ancestor(t, self.specified_leaf_nodes@, n, n)
    }

    /// The node whose prepended atoms receive what node `node` prepends.
    pub open spec fn before_target(&self, t: SyntaxTree, node: int) -> int {
        self.target(t, t.first_leaf(node))
    }

    /// The node whose appended atoms receive what node `node` appends.
    pub open spec fn after_target(&self, t: SyntaxTree, node: int) -> int {
        self.target(t, t.last_leaf(node))
    }

    /// Softline expansion at resolution time: by the multi-line-ness of the
    /// parent of `node`, a softline becomes a `Hardline`, a `Space` or nothing,
    /// and a multi-line-only literal a `Literal` or nothing.
    pub open spec fn expanded(&self, t: SyntaxTree, a: AtomView, node: int) -> Option<AtomView> {
        match a {
            AtomView::Softline { spaced } => match t.nodes@[node].parent {
                Some(p) => if self.multi_line_nodes@.contains(t.nodes@[p as int].id) {
                    Some(AtomView::Hardline)
                } else if spaced {
                    Some(AtomView::Space)
                } else {
                    None
                },
                None => None,
            },
            AtomView::MultilineOnlyLiteral(l) => match t.nodes@[node].parent {
                Some(p) => if self.multi_line_nodes@.contains(t.nodes@[p as int].id) {
                    Some(AtomView::Literal(l))
                } else {
                    None
                },
                None => None,
            },
            _ => Some(a),
        }
    }

    /// The entry that inserting `a` at `node` adds to the table of `pl`, if any.
    pub open spec fn insertion(&self, t: SyntaxTree, pl: Placement, a: AtomView, node: int) -> Seq<
        (usize, AtomView),
    > {
        let target = match pl {
            Placement::Before => self.before_target(t, node),
            Placement::After => self.after_target(t, node),
        };
        match self.expanded(t, a, node) {
            Some(x) => seq![(t.nodes@[target].id, x)],
            None => Seq::empty(),
        }
    }

    /// The atom a directive stands for at `node`.
    pub open spec fn directive_atom(
        &self,
        t: SyntaxTree,
        pl: Placement,
        d: Directive,
        node: int,
        delimiter: Seq<char>,
        scope: Seq<char>,
    ) -> AtomView {
        match d {
            Directive::Space => AtomView::Space,
            Directive::Hardline => AtomView::Hardline,
            Directive::IndentStart => AtomView::IndentStart,
            Directive::IndentEnd => AtomView::IndentEnd,
            Directive::EmptySoftline => AtomView::Softline { spaced: false },
            Directive::SpacedSoftline => AtomView::Softline { spaced: true },
            Directive::InputSoftline => {
                let breaks = match pl {
                    Placement::Before => self.line_break_before@,
                    Placement::After => self.line_break_after@,
                };
                if breaks.contains(t.nodes@[node].id) {
                    AtomView::Hardline
                } else {
                    AtomView::Space
                }
            },
            Directive::Delimiter => AtomView::Literal(delimiter),
            Directive::MultilineDelimiter => AtomView::MultilineOnlyLiteral(delimiter),
            Directive::EmptyScopedSoftline => AtomView::ScopedSoftline {
                id: (self.counter + 1) as usize,
                scope_id: scope,
                spaced: false,
            },
            Directive::SpacedScopedSoftline => AtomView::ScopedSoftline {
                id: (self.counter + 1) as usize,
                scope_id: scope,
                spaced: true,
            },
        }
    }

    /// What a successful capture adds to the table of `side`.
    pub open spec fn added(
        &self,
        t: SyntaxTree,
        c: Capture,
        side: Placement,
        node: int,
        delimiter: Seq<char>,
        scope: Seq<char>,
    ) -> Seq<(usize, AtomView)> {
        match c {
            Capture::Delete => match side {
                Placement::Before => self.insertion(t, side, AtomView::DeleteBegin, node),
                Placement::After => self.insertion(t, side, AtomView::DeleteEnd, node),
            },
            Capture::AllowBlankLineBefore => if side is Before && self.blank_lines_before@.contains(
                t.nodes@[node].id,
            ) {
                self.insertion(t, side, AtomView::Blankline, node)
            } else {
                Seq::empty()
            },
            Capture::Insert(pl, d) => if (pl is Before) == (side is Before) {
                self.insertion(t, pl, self.directive_atom(t, pl, d, node, delimiter, scope), node)
            } else {
                Seq::empty()
            },
            _ => Seq::empty(),
        }
    }

    /// What a successful capture adds to the scope boundaries: openings when
    /// `begin`, closings otherwise.
    pub open spec fn added_mark(&self, t: SyntaxTree, c: Capture, begin: bool, node: int, scope: Seq<char>) -> Seq<
        (usize, usize, Seq<char>),
    > {
        if begin && c is BeginScope {
            let n = t.nodes@[self.before_target(t, node)];
            seq![(n.id, n.start_row, scope)]
        } else if !begin && c is EndScope {
            let n = t.nodes@[self.after_target(t, node)];
            seq![(n.id, n.end_row, scope)]
        } else {
            Seq::empty()
        }
    }
}

impl AtomCollection {
    /// The nearest ancestor of leaf `n` that is an opaque leaf, or `n` itself.
    fn parent_leaf_node(&self, t: &SyntaxTree, n: usize) -> (r: usize)
        requires
            t.wf(),
            n < t.nodes@.len(),
        ensures
            r as int == self.target(*t, n as int),
            r < t.nodes@.len(),
    {
        let mut m: usize = n;
        loop
            invariant
                t.wf(),
                n < t.nodes@.len(),
                m < t.nodes@.len(),
                opaque_ancestor(*t, self.specified_leaf_nodes@, n as int, n as int) == opaque_ancestor(
                    *t,
                    self.specified_leaf_nodes@,
                    m as int,
                    n as int,
                ),
            decreases m,
        {
            assert(node_ok(t.nodes@, m as int));
            match t.nodes[m].parent {
                Some(p) => {
                    if has_id(&self.specified_leaf_nodes, t.nodes[p].id) {
                        return p;
                    }
                    m = p;
                },
                None => {
                    return n;
                },
            }
        }
    }

    /// Resolves a softline or multi-line-only literal by the parent of `node`.
    fn expand_multiline(&self, t: &SyntaxTree, atom: Atom, node: usize) -> (r: Option<Atom>)
        requires
            t.wf(),
            node < t.nodes@.len(),
        ensures
            match r {
                Some(a) => self.expanded(*t, atom@, node as int) == Some(a@),
                None => self.expanded(*t, atom@, node as int) is None,
            },
    {
        assert(node_ok(t.nodes@, node as int));
        match atom {
            Atom::Softline { spaced } => match t.nodes[node].parent {
                Some(p) => {
                    if has_id(&self.multi_line_nodes, t.nodes[p].id) {
                        Some(Atom::Hardline)
                    } else if spaced {
                        Some(Atom::Space)
                    } else {
                        None
                    }
                },
                None => None,
            },
            Atom::MultilineOnlyLiteral(literal) => match t.nodes[node].parent {
                Some(p) => {
                    if has_id(&self.multi_line_nodes, t.nodes[p].id) {
                        Some(Atom::Literal(literal))
                    } else {
                        None
                    }
                },
                None => None,
            },
            _ => Some(atom),
        }
    }

    /// Registers `atom` before the first leaf of `node`.
    fn prepend(&mut self, t: &SyntaxTree, atom: Atom, node: usize)
        requires
            t.wf(),
            node < t.nodes@.len(),
        ensures
            final(self).same_facts(old(self)),
            final(self).append == old(self).append,
            final(self).scope_begin == old(self).scope_begin,
            final(self).scope_end == old(self).scope_end,
            final(self).counter == old(self).counter,
            entries_view(final(self).prepend@) == entries_view(old(self).prepend@) + old(
                self,
            ).insertion(*t, Placement::Before, atom@, node as int),
    {
        let ghost before = self.prepend@;
        if let Some(atom) = self.expand_multiline(t, atom, node) {
            let leaf = t.first_leaf_of(node);
            let target = self.parent_leaf_node(t, leaf);
            let id = t.nodes[target].id;
            self.prepend.push((id, atom));
            assert(entries_view(self.prepend@) =~= entries_view(before) + seq![(id, atom@)]);
        } else {
            assert(entries_view(self.prepend@) =~= entries_view(before) + Seq::<(usize, AtomView)>::empty());
        }
    }

    /// Registers `atom` after the last leaf of `node`.
    fn append(&mut self, t: &SyntaxTree, atom: Atom, node: usize)
        requires
            t.wf(),
            node < t.nodes@.len(),
        ensures
            final(self).same_facts(old(self)),
            final(self).prepend == old(self).prepend,
            final(self).scope_begin == old(self).scope_begin,
            final(self).scope_end == old(self).scope_end,
            final(self).counter == old(self).counter,
            entries_view(final(self).append@) == entries_view(old(self).append@) + old(
                self,
            ).insertion(*t, Placement::After, atom@, node as int),
    {
        let ghost before = self.append@;
        if let Some(atom) = self.expand_multiline(t, atom, node) {
            let leaf = t.last_leaf_of(node);
            let target = self.parent_leaf_node(t, leaf);
            let id = t.nodes[target].id;
            self.append.push((id, atom));
            assert(entries_view(self.append@) =~= entries_view(before) + seq![(id, atom@)]);
        } else {
            assert(entries_view(self.append@) =~= entries_view(before) + Seq::<(usize, AtomView)>::empty());
        }
    }

    /// Opens scope `scope_id` at the first leaf of `node`.
    fn begin_scope_before(&mut self, t: &SyntaxTree, node: usize, scope_id: &str)
        requires
            t.wf(),
            node < t.nodes@.len(),
        ensures
            final(self).same_facts(old(self)),
            final(self).prepend == old(self).prepend,
            final(self).append == old(self).append,
            final(self).scope_end == old(self).scope_end,
            final(self).counter == old(self).counter,
            marks_view(final(self).scope_begin@) == marks_view(old(self).scope_begin@) + old(
                self,
            ).added_mark(*t, Capture::BeginScope, true, node as int, scope_id@),
    {
        let ghost before = self.scope_begin@;
        let leaf = t.first_leaf_of(node);
        let target = self.parent_leaf_node(t, leaf);
        let n = &t.nodes[target];
        self.scope_begin.push((n.id, n.start_row, scope_id.to_owned()));
        assert(marks_view(self.scope_begin@) =~= marks_view(before) + seq![
            (n.id, n.start_row, scope_id@),
        ]);
    }

    /// Closes scope `scope_id` at the last leaf of `node`.
    fn end_scope_after(&mut self, t: &SyntaxTree, node: usize, scope_id: &str)
        requires
            t.wf(),
            node < t.nodes@.len(),
        ensures
            final(self).same_facts(old(self)),
            final(self).prepend == old(self).prepend,
            final(self).append == old(self).append,
            final(self).scope_begin == old(self).scope_begin,
            final(self).counter == old(self).counter,
            marks_view(final(self).scope_end@) == marks_view(old(self).scope_end@) + old(
                self,
            ).added_mark(*t, Capture::EndScope, false, node as int, scope_id@),
    {
        let ghost before = self.scope_end@;
        let leaf = t.last_leaf_of(node);
        let target = self.parent_leaf_node(t, leaf);
        let n = &t.nodes[target];
        self.scope_end.push((n.id, n.end_row, scope_id.to_owned()));
        assert(marks_view(self.scope_end@) =~= marks_view(before) + seq![
            (n.id, n.end_row, scope_id@),
        ]);
    }

    /// A fresh id for a scoped softline.
    fn next_id(&mut self) -> (r: usize)
        requires
            old(self).counter < usize::MAX,
        ensures
            final(self).same_facts(old(self)),
            final(self).prepend == old(self).prepend,
            final(self).append == old(self).append,
            final(self).scope_begin == old(self).scope_begin,
            final(self).scope_end == old(self).scope_end,
            final(self).counter == old(self).counter + 1,
            r == final(self).counter,
    {
        self.counter += 1;
        self.counter
    }
}

/// The characters of an optional argument, or none.
pub open spec fn arg_view(a: Option<&str>) -> Seq<char> {
    match a {
        Some(x) => x@,
        None => Seq::empty(),
    }
}

/// Whether a capture with these arguments is rejected.
pub open spec fn capture_rejected(name: Seq<char>, delimiter: Option<&str>, scope_id: Option<&str>) -> bool {
    match capture_of(name) {
        None => true,
        Some(c) => (needs_delimiter(c) && delimiter is None) || (needs_scope_id(c) && scope_id is None),
    }
}

impl AtomCollection {
    /// Applies the capture `name` on node `node` of `t`: registers the atoms
    /// it inserts before or after the node's leaves, or the scope boundary it
    /// marks. Fails on an unknown name, and on a missing delimiter or scope id
    /// where the capture needs one.
    pub fn resolve_capture(
        &mut self,
        t: &SyntaxTree,
        name: &str,
        node: usize,
        delimiter: Option<&str>,
        scope_id: Option<&str>,
    ) -> (r: Result<(), FormatterError>)
        requires
            t.wf(),
            node < t.nodes@.len(),
            old(self).counter < usize::MAX,
        ensures
            r is Err <==> capture_rejected(name@, delimiter, scope_id),
            match r {
                Err(FormatterError::UnknownCapture(n)) => n@ == name@ && capture_of(name@) is None,
                Err(FormatterError::MissingDelimiter(n)) => n@ == name@ && capture_of(name@) is Some
                    && needs_delimiter(capture_of(name@)->0) && delimiter is None,
                Err(FormatterError::MissingScopeId(n)) => n@ == name@ && capture_of(name@) is Some
                    && needs_scope_id(capture_of(name@)->0) && scope_id is None,
                Ok(()) => true,
            },
            final(self).same_facts(old(self)),
            final(self).counter == old(self).counter + if capture_of(name@) is Some
                && makes_scoped_softline(capture_of(name@)->0) {
                1int
            } else {
                0int
            },
            entries_view(final(self).prepend@) == entries_view(old(self).prepend@) + if r is Ok {
                old(self).added(
                    *t,
                    capture_of(name@)->0,
                    Placement::Before,
                    node as int,
                    arg_view(delimiter),
                    arg_view(scope_id),
                )
            } else {
                Seq::empty()
            },
            entries_view(final(self).append@) == entries_view(old(self).append@) + if r is Ok {
                old(self).added(
                    *t,
                    capture_of(name@)->0,
                    Placement::After,
                    node as int,
                    arg_view(delimiter),
                    arg_view(scope_id),
                )
            } else {
                Seq::empty()
            },
            marks_view(final(self).scope_begin@) == marks_view(old(self).scope_begin@) + if r is Ok {
                old(self).added_mark(*t, capture_of(name@)->0, true, node as int, arg_view(scope_id))
            } else {
                Seq::empty()
            },
            marks_view(final(self).scope_end@) == marks_view(old(self).scope_end@) + if r is Ok {
                old(self).added_mark(*t, capture_of(name@)->0, false, node as int, arg_view(scope_id))
            } else {
                Seq::empty()
            },
    {
        let ghost pre = entries_view(self.prepend@);
        let ghost app = entries_view(self.append@);
        let ghost beg = marks_view(self.scope_begin@);
        let ghost end = marks_view(self.scope_end@);
        let c = match capture_from_name(name) {
            Some(c) => c,
            None => {
                assert(pre + Seq::<(usize, AtomView)>::empty() =~= pre);
                assert(app + Seq::<(usize, AtomView)>::empty() =~= app);
                assert(beg + Seq::<(usize, usize, Seq<char>)>::empty() =~= beg);
                assert(end + Seq::<(usize, usize, Seq<char>)>::empty() =~= end);
                return Err(FormatterError::UnknownCapture(name.to_owned()));
            },
        };
        proof {
            assert(pre + Seq::<(usize, AtomView)>::empty() =~= pre);
            assert(app + Seq::<(usize, AtomView)>::empty() =~= app);
            assert(beg + Seq::<(usize, usize, Seq<char>)>::empty() =~= beg);
            assert(end + Seq::<(usize, usize, Seq<char>)>::empty() =~= end);
        }
        match c {
            Capture::Leaf => {},
            Capture::Delete => {
                self.prepend(t, Atom::DeleteBegin, node);
                self.append(t, Atom::DeleteEnd, node);
            },
            Capture::AllowBlankLineBefore => {
                if has_id(&self.blank_lines_before, t.nodes[node].id) {
                    self.prepend(t, Atom::Blankline, node);
                }
            },
            Capture::BeginScope => match scope_id {
                Some(s) => self.begin_scope_before(t, node, s),
                None => {
                    return Err(FormatterError::MissingScopeId(name.to_owned()));
                },
            },
            Capture::EndScope => match scope_id {
                Some(s) => self.end_scope_after(t, node, s),
                None => {
                    return Err(FormatterError::MissingScopeId(name.to_owned()));
                },
            },
            Capture::Insert(pl, d) => {
                let atom = match d {
                    Directive::Space => Atom::Space,
                    Directive::Hardline => Atom::Hardline,
                    Directive::IndentStart => Atom::IndentStart,
                    Directive::IndentEnd => Atom::IndentEnd,
                    Directive::EmptySoftline => Atom::Softline { spaced: false },
                    Directive::SpacedSoftline => Atom::Softline { spaced: true },
                    Directive::InputSoftline => {
                        let breaks = match pl {
                            Placement::Before => &self.line_break_before,
                            Placement::After => &self.line_break_after,
                        };
                        if has_id(breaks, t.nodes[node].id) {
                            Atom::Hardline
                        } else {
                            Atom::Space
                        }
                    },
                    Directive::Delimiter => match delimiter {
                        Some(x) => Atom::Literal(x.to_owned()),
                        None => {
                            return Err(FormatterError::MissingDelimiter(name.to_owned()));
                        },
                    },
                    Directive::MultilineDelimiter => match delimiter {
                        Some(x) => Atom::MultilineOnlyLiteral(x.to_owned()),
                        None => {
                            return Err(FormatterError::MissingDelimiter(name.to_owned()));
                        },
                    },
                    Directive::EmptyScopedSoftline => {
                        let id = self.next_id();
                        match scope_id {
                            Some(s) => Atom::ScopedSoftline {
                                id,
                                scope_id: s.to_owned(),
                                spaced: false,
                            },
                            None => {
                                return Err(FormatterError::MissingScopeId(name.to_owned()));
                            },
                        }
                    },
                    Directive::SpacedScopedSoftline => {
                        let id = self.next_id();
                        match scope_id {
                            Some(s) => Atom::ScopedSoftline {
                                id,
                                scope_id: s.to_owned(),
                                spaced: true,
                            },
                            None => {
                                return Err(FormatterError::MissingScopeId(name.to_owned()));
                            },
                        }
                    },
                };
                match pl {
                    Placement::Before => self.prepend(t, atom, node),
                    Placement::After => self.append(t, atom, node),
                }
            },
        }
        Ok(())
    }
}

/// The leaf atoms under node `i`, depth-first: one per childless node or
/// node whose id is in `opaque`, whose subtree is not entered.
pub open spec fn leaf_atoms(t: SyntaxTree, opaque: Seq<usize>, i: usize) -> Seq<Atom>
    decreases t.nodes@.len() - i, t.nodes@[i as int].children@.len() + 1,
{
    if i < t.nodes@.len() {
        let n = t.nodes@[i as int];
        if n.children@.len() == 0 || opaque.contains(n.id) {
            seq![Atom::Leaf { content: n.text, id: n.id }]
        } else {
            children_leaf_atoms(t, opaque, i, n.children@.len() as int)
        }
    } else {
        Seq::empty()
    }
}

/// The leaf atoms under the first `k` children of node `i`, one child after another.
pub open spec fn children_leaf_atoms(t: SyntaxTree, opaque: Seq<usize>, i: usize, k: int) -> Seq<Atom>
    decreases t.nodes@.len() - i, k,
{
    if i < t.nodes@.len() && 0 < k <= t.nodes@[i as int].children@.len() {
        let c = t.nodes@[i as int].children@[k - 1];
        children_leaf_atoms(t, opaque, i, k - 1) + if i < c < t.nodes@.len() {
            leaf_atoms(t, opaque, c)
        } else {
            Seq::empty()
        }
    } else {
        Seq::empty()
    }
}

/// Appends the atoms that `table` registers for leaf `id`, in insertion order.
fn push_bucket(out: &mut Vec<Atom>, table: &Vec<(usize, Atom)>, id: usize)
    ensures
        final(out)@ == old(out)@ + bucket(table@, id),
{
    let ghost start = out@;
    let mut k: usize = 0;
    while k < table.len()
        invariant
            k <= table@.len(),
            out@ == start + bucket(table@.subrange(0, k as int), id),
        decreases table@.len() - k,
    {
        proof {
            assert(table@.subrange(0, k + 1).drop_last() =~= table@.subrange(0, k as int));
        }
        if table[k].0 == id {
            out.push(table[k].1.duplicate());
        }
        assert(out@ =~= start + bucket(table@.subrange(0, k + 1), id));
        k = k + 1;
    }
    proof {
        assert(table@.subrange(0, k as int) =~= table@);
    }
}

impl AtomCollection {
    /// A collection over `atoms`, with empty side tables and no facts about the tree.
    pub fn new(atoms: Vec<Atom>) -> (r: AtomCollection)
        ensures
            r.atoms@ == atoms@,
            r.prepend@.len() == 0,
            r.append@.len() == 0,
            r.specified_leaf_nodes@.len() == 0,
            r.multi_line_nodes@.len() == 0,
            r.blank_lines_before@.len() == 0,
            r.line_break_before@.len() == 0,
            r.line_break_after@.len() == 0,
            r.scope_begin@.len() == 0,
            r.scope_end@.len() == 0,
            r.counter == 0,
    {
        AtomCollection {
            atoms,
            prepend: Vec::new(),
            append: Vec::new(),
            specified_leaf_nodes: Vec::new(),
            multi_line_nodes: Vec::new(),
            blank_lines_before: Vec::new(),
            line_break_before: Vec::new(),
            line_break_after: Vec::new(),
            scope_begin: Vec::new(),
            scope_end: Vec::new(),
            counter: 0,
        }
    }

    /// The atoms as they stand.
    pub fn atoms(&self) -> (r: &Vec<Atom>)
        ensures
            r == &self.atoms,
    {
        &self.atoms
    }

    /// Scans the tree under `root` and collects its leaf atoms in source order;
    /// nodes whose id is in `specified_leaf_nodes` count as single leaves.
    pub fn collect_leafs(t: &SyntaxTree, root: usize, specified_leaf_nodes: Vec<usize>) -> (r: AtomCollection)
        requires
            t.wf(),
            root < t.nodes@.len(),
        ensures
            r.atoms@ == leaf_atoms(*t, specified_leaf_nodes@, root),
            r.specified_leaf_nodes@ == specified_leaf_nodes@,
            r.multi_line_nodes@ == multi_line_ids(*t, t.subtree_order(root)),
            r.blank_lines_before@ == break_ids(*t, t.subtree_order(root), 2).0,
            r.line_break_before@ == break_ids(*t, t.subtree_order(root), 1).0,
            r.line_break_after@ == break_ids(*t, t.subtree_order(root), 1).1,
            r.prepend@.len() == 0,
            r.append@.len() == 0,
            r.scope_begin@.len() == 0,
            r.scope_end@.len() == 0,
            r.counter == 0,
    {
        let multi_line_nodes = detect_multi_line_nodes(t, root);
        let blank_lines_before = detect_blank_lines_before(t, root);
        let (line_break_before, line_break_after) = detect_line_break_before_and_after(t, root);
        let mut atoms = AtomCollection {
            atoms: Vec::new(),
            prepend: Vec::new(),
            append: Vec::new(),
            specified_leaf_nodes,
            multi_line_nodes,
            blank_lines_before,
            line_break_before,
            line_break_after,
            scope_begin: Vec::new(),
            scope_end: Vec::new(),
            counter: 0,
        };
        atoms.collect_leafs_inner(t, root);
        assert(atoms.atoms@ =~= leaf_atoms(*t, specified_leaf_nodes@, root));
        atoms
    }

    fn collect_leafs_inner(&mut self, t: &SyntaxTree, node: usize)
        requires
            t.wf(),
            node < t.nodes@.len(),
        ensures
            final(self).atoms@ == old(self).atoms@ + leaf_atoms(
                *t,
                old(self).specified_leaf_nodes@,
                node,
            ),
            final(self).specified_leaf_nodes == old(self).specified_leaf_nodes,
            final(self).multi_line_nodes == old(self).multi_line_nodes,
            final(self).blank_lines_before == old(self).blank_lines_before,
            final(self).line_break_before == old(self).line_break_before,
            final(self).line_break_after == old(self).line_break_after,
            final(self).prepend == old(self).prepend,
            final(self).append == old(self).append,
            final(self).scope_begin == old(self).scope_begin,
            final(self).scope_end == old(self).scope_end,
            final(self).counter == old(self).counter,
        decreases t.nodes@.len() - node,
    {
        let ghost start = self.atoms@;
        let ghost opaque = self.specified_leaf_nodes@;
        assert(node_ok(t.nodes@, node as int));
        let n = t.nodes[node].children.len();
        if n == 0 || has_id(&self.specified_leaf_nodes, t.nodes[node].id) {
            self.atoms.push(Atom::Leaf { content: t.nodes[node].text.clone(), id: t.nodes[node].id });
        } else {
            let mut k: usize = 0;
            proof {
                assert(self.atoms@ =~= start + children_leaf_atoms(*t, opaque, node, 0));
            }
            while k < n
                invariant
                    t.wf(),
                    node < t.nodes@.len(),
                    node_ok(t.nodes@, node as int),
                    n == t.nodes@[node as int].children@.len(),
                    k <= n,
                    self.specified_leaf_nodes@ == opaque,
                    self.atoms@ == start + children_leaf_atoms(*t, opaque, node, k as int),
                    self.specified_leaf_nodes == old(self).specified_leaf_nodes,
                    self.multi_line_nodes == old(self).multi_line_nodes,
                    self.blank_lines_before == old(self).blank_lines_before,
                    self.line_break_before == old(self).line_break_before,
                    self.line_break_after == old(self).line_break_after,
                    self.prepend == old(self).prepend,
                    self.append == old(self).append,
                    self.scope_begin == old(self).scope_begin,
                    self.scope_end == old(self).scope_end,
                    self.counter == old(self).counter,
                decreases n - k,
            {
                let c = t.nodes[node].children[k];
                self.collect_leafs_inner(t, c);
                proof {
                    assert(self.atoms@ =~= start + children_leaf_atoms(*t, opaque, node, k + 1));
                }
                k = k + 1;
            }
        }
    }

    /// The expansion pass: each leaf atom is replaced by its prepended atoms,
    /// itself and its appended atoms.
    pub fn apply_prepends_and_appends(&mut self)
        ensures
            final(self).atoms@ == expand(old(self).atoms@, old(self).prepend@, old(self).append@),
            final(self).prepend == old(self).prepend,
            final(self).append == old(self).append,
            final(self).scope_begin == old(self).scope_begin,
            final(self).scope_end == old(self).scope_end,
            final(self).counter == old(self).counter,
    {
        let mut expanded: Vec<Atom> = Vec::new();
        let mut i: usize = 0;
        while i < self.atoms.len()
            invariant
                i <= self.atoms@.len(),
                self == old(self),
                expanded@ == expand(self.atoms@.subrange(0, i as int), self.prepend@, self.append@),
            decreases self.atoms@.len() - i,
        {
            proof {
                assert(self.atoms@.subrange(0, i + 1).drop_last() =~= self.atoms@.subrange(0, i as int));
            }
            let ghost before = expanded@;
            match &self.atoms[i] {
                Atom::Leaf { id, .. } => {
                    push_bucket(&mut expanded, &self.prepend, *id);
                    expanded.push(self.atoms[i].duplicate());
                    push_bucket(&mut expanded, &self.append, *id);
                },
                _ => {
                    expanded.push(self.atoms[i].duplicate());
                },
            }
            assert(expanded@ =~= expand(self.atoms@.subrange(0, i + 1), self.prepend@, self.append@));
            i = i + 1;
        }
        proof {
            assert(self.atoms@.subrange(0, i as int) =~= self.atoms@);
        }
        self.atoms = expanded;
    }

    /// The scope resolver: scoped softlines become `Hardline`, `Space` or
    /// nothing by the multi-line-ness of their scope.
    fn post_process_scopes(&mut self)
        ensures
            final(self).atoms@ == resolve_scopes(old(self).atoms@, old(self).scope_begin@, old(self).scope_end@),
            final(self).prepend == old(self).prepend,
            final(self).append == old(self).append,
            final(self).scope_begin == old(self).scope_begin,
            final(self).scope_end == old(self).scope_end,
            final(self).counter == old(self).counter,
    {
        let resolved = resolve_scoped_softlines(&self.atoms, &self.scope_begin, &self.scope_end);
        self.atoms = resolved;
    }

    /// Resolves the scoped softlines, then merges whitespace by dominance,
    /// moves indentation markers before whitespace, cuts deletion regions,
    /// drops leading whitespace and ends the stream with a `Hardline`.
    pub fn post_process(&mut self)
        ensures
            final(self).atoms@ == normalise(
                resolve_scopes(old(self).atoms@, old(self).scope_begin@, old(self).scope_end@),
            ),
            final(self).prepend == old(self).prepend,
            final(self).append == old(self).append,
            final(self).scope_begin == old(self).scope_begin,
            final(self).scope_end == old(self).scope_end,
            final(self).counter == old(self).counter,
    {
        self.post_process_scopes();
        let new_vec = normalise_atoms(&self.atoms);
        self.atoms = new_vec;
    }
}

} // verus!
