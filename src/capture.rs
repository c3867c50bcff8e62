//! Capture names: the fixed set of rule names a query can attach to a node,
//! and what each asks for.
use vstd::prelude::*;

verus! {

/// Where an inserted atom goes: before the node's first leaf or after its last.
#[derive(Debug, Clone, Copy)]
pub enum Placement {
    Before,
    After,
}

/// The atom a `prepend_*` or `append_*` capture inserts.
#[derive(Debug, Clone, Copy)]
pub enum Directive {
    Space,
    Hardline,
    IndentStart,
    IndentEnd,
    EmptySoftline,
    SpacedSoftline,
    InputSoftline,
    Delimiter,
    MultilineDelimiter,
    EmptyScopedSoftline,
    SpacedScopedSoftline,
}

/// A recognised capture.
#[derive(Debug, Clone, Copy)]
pub enum Capture {
    Leaf,
    Delete,
    AllowBlankLineBefore,
    BeginScope,
    EndScope,
    Insert(Placement, Directive),
}

/// The capture needs a delimiter argument.
pub open spec fn needs_delimiter(c: Capture) -> bool {
    c matches Capture::Insert(_, d) && (d is Delimiter || d is MultilineDelimiter)
}

/// The capture makes a scoped softline, which takes a fresh id.
pub open spec fn makes_scoped_softline(c: Capture) -> bool {
    c matches Capture::Insert(_, d) && (d is EmptyScopedSoftline || d is SpacedScopedSoftline)
}

/// The capture needs a scope id argument.
pub open spec fn needs_scope_id(c: Capture) -> bool {
    c is BeginScope || c is EndScope || makes_scoped_softline(c)
}

/// Whether two strings hold the same characters.
fn name_is(name: &str, lit: &str) -> (r: bool)
    ensures
        r == (name@ == lit@),
{
    name.to_owned() == lit.to_owned()
}

pub open spec fn capture_of(name: Seq<char>) -> Option<Capture> {
    if name == "leaf"@ {
        Some(Capture::Leaf)
    } else if name == "delete"@ {
        Some(Capture::Delete)
    } else if name == "allow_blank_line_before"@ {
        Some(Capture::AllowBlankLineBefore)
    } else if name == "begin_scope"@ {
        Some(Capture::BeginScope)
    } else if name == "end_scope"@ {
        Some(Capture::EndScope)
    } else if name == "append_space"@ {
        Some(Capture::Insert(Placement::After, Directive::Space))
    } else if name == "prepend_space"@ {
        Some(Capture::Insert(Placement::Before, Directive::Space))
    } else if name == "append_hardline"@ {
        Some(Capture::Insert(Placement::After, Directive::Hardline))
    } else if name == "prepend_hardline"@ {
        Some(Capture::Insert(Placement::Before, Directive::Hardline))
    } else if name == "append_indent_start"@ {
        Some(Capture::Insert(Placement::After, Directive::IndentStart))
    } else if name == "prepend_indent_start"@ {
        Some(Capture::Insert(Placement::Before, Directive::IndentStart))
    } else if name == "append_indent_end"@ {
        Some(Capture::Insert(Placement::After, Directive::IndentEnd))
    } else if name == "prepend_indent_end"@ {
        Some(Capture::Insert(Placement::Before, Directive::IndentEnd))
    } else if name == "append_empty_softline"@ {
        Some(Capture::Insert(Placement::After, Directive::EmptySoftline))
    } else if name == "prepend_empty_softline"@ {
        Some(Capture::Insert(Placement::Before, Directive::EmptySoftline))
    } else if name == "append_spaced_softline"@ {
        Some(Capture::Insert(Placement::After, Directive::SpacedSoftline))
    } else if name == "prepend_spaced_softline"@ {
        Some(Capture::Insert(Placement::Before, Directive::SpacedSoftline))
    } else if name == "append_input_softline"@ {
        Some(Capture::Insert(Placement::After, Directive::InputSoftline))
    } else if name == "prepend_input_softline"@ {
        Some(Capture::Insert(Placement::Before, Directive::InputSoftline))
    } else if name == "append_delimiter"@ {
        Some(Capture::Insert(Placement::After, Directive::Delimiter))
    } else if name == "prepend_delimiter"@ {
        Some(Capture::Insert(Placement::Before, Directive::Delimiter))
    } else if name == "append_multiline_delimiter"@ {
        Some(Capture::Insert(Placement::After, Directive::MultilineDelimiter))
    } else if name == "prepend_multiline_delimiter"@ {
        Some(Capture::Insert(Placement::Before, Directive::MultilineDelimiter))
    } else if name == "append_empty_scoped_softline"@ {
        Some(Capture::Insert(Placement::After, Directive::EmptyScopedSoftline))
    } else if name == "prepend_empty_scoped_softline"@ {
        Some(Capture::Insert(Placement::Before, Directive::EmptyScopedSoftline))
    } else if name == "append_spaced_scoped_softline"@ {
        Some(Capture::Insert(Placement::After, Directive::SpacedScopedSoftline))
    } else if name == "prepend_spaced_scoped_softline"@ {
        Some(Capture::Insert(Placement::Before, Directive::SpacedScopedSoftline))
    } else {
        None
    }
}

pub fn capture_from_name(name: &str) -> (r: Option<Capture>)
    ensures
        r == capture_of(name@),
{
    if name_is(name, "leaf") {
        Some(Capture::Leaf)
    } else if name_is(name, "delete") {
        Some(Capture::Delete)
    } else if name_is(name, "allow_blank_line_before") {
        Some(Capture::AllowBlankLineBefore)
    } else if name_is(name, "begin_scope") {
        Some(Capture::BeginScope)
    } else if name_is(name, "end_scope") {
        Some(Capture::EndScope)
    } else if name_is(name, "append_space") {
        Some(Capture::Insert(Placement::After, Directive::Space))
    } else if name_is(name, "prepend_space") {
        Some(Capture::Insert(Placement::Before, Directive::Space))
    } else if name_is(name, "append_hardline") {
        Some(Capture::Insert(Placement::After, Directive::Hardline))
    } else if name_is(name, "prepend_hardline") {
        Some(Capture::Insert(Placement::Before, Directive::Hardline))
    } else if name_is(name, "append_indent_start") {
        Some(Capture::Insert(Placement::After, Directive::IndentStart))
    } else if name_is(name, "prepend_indent_start") {
        Some(Capture::Insert(Placement::Before, Directive::IndentStart))
    } else if name_is(name, "append_indent_end") {
        Some(Capture::Insert(Placement::After, Directive::IndentEnd))
    } else if name_is(name, "prepend_indent_end") {
        Some(Capture::Insert(Placement::Before, Directive::IndentEnd))
    } else if name_is(name, "append_empty_softline") {
        Some(Capture::Insert(Placement::After, Directive::EmptySoftline))
    } else if name_is(name, "prepend_empty_softline") {
        Some(Capture::Insert(Placement::Before, Directive::EmptySoftline))
    } else if name_is(name, "append_spaced_softline") {
        Some(Capture::Insert(Placement::After, Directive::SpacedSoftline))
    } else if name_is(name, "prepend_spaced_softline") {
        Some(Capture::Insert(Placement::Before, Directive::SpacedSoftline))
    } else if name_is(name, "append_input_softline") {
        Some(Capture::Insert(Placement::After, Directive::InputSoftline))
    } else if name_is(name, "prepend_input_softline") {
        Some(Capture::Insert(Placement::Before, Directive::InputSoftline))
    } else if name_is(name, "append_delimiter") {
        Some(Capture::Insert(Placement::After, Directive::Delimiter))
    } else if name_is(name, "prepend_delimiter") {
        Some(Capture::Insert(Placement::Before, Directive::Delimiter))
    } else if name_is(name, "append_multiline_delimiter") {
        Some(Capture::Insert(Placement::After, Directive::MultilineDelimiter))
    } else if name_is(name, "prepend_multiline_delimiter") {
        Some(Capture::Insert(Placement::Before, Directive::MultilineDelimiter))
    } else if name_is(name, "append_empty_scoped_softline") {
        Some(Capture::Insert(Placement::After, Directive::EmptyScopedSoftline))
    } else if name_is(name, "prepend_empty_scoped_softline") {
        Some(Capture::Insert(Placement::Before, Directive::EmptyScopedSoftline))
    } else if name_is(name, "append_spaced_scoped_softline") {
        Some(Capture::Insert(Placement::After, Directive::SpacedScopedSoftline))
    } else if name_is(name, "prepend_spaced_scoped_softline") {
        Some(Capture::Insert(Placement::Before, Directive::SpacedScopedSoftline))
    } else {
        None
    }
}

} // verus!
