use vstd::prelude::*;

verus! {

/// Failure while parsing a script text into raw blocks.
///
/// Each variant carries the zero-based index of the offending line.
#[derive(Debug, PartialEq, Eq)]
pub enum ParseError {
    /// A block header declares no id.
    MissingId { line: usize },
    /// A choice line declares no command word.
    MissingCommand { line: usize },
    /// A block is still open when the text ends; the line is the block's header.
    UnterminatedBlock { line: usize },
}

/// Failure while resolving raw blocks into a story graph.
#[derive(Debug, PartialEq, Eq)]
pub enum BuildError {
    /// Two blocks declare the same id; the field holds that id.
    DuplicateId(String),
    /// A choice names a target id that no block declares; the field holds that id.
    DanglingReference(String),
    /// No block has the entry id.
    NoEntryPoint,
}

/// Failure while looking a story up by name in the registry.
#[derive(Debug, PartialEq, Eq)]
pub enum LookupError {
    /// No story of that name is loaded.
    NotFound,
}

/// Any failure the engine reports to its caller.
#[derive(Debug, PartialEq, Eq)]
pub enum EngineError {
    /// The script text is malformed.
    Parse(ParseError),
    /// The script is structurally invalid as a graph.
    Build(BuildError),
    /// A session was started while no story is active.
    NoActiveStory,
    /// A session was advanced for a user who has not started.
    NotStarted,
    /// A session was advanced with a command no edge of the current node carries.
    InvalidChoice,
}

} // verus!
