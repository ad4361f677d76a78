//! What can go wrong while a gloss is made.

use vstd::prelude::*;
use vstd::string::*;

verus! {

/// Why a gloss could not be made. Each variant but the last carries the text
/// that was at fault.
#[derive(Debug, Clone, PartialEq, Eq)]
pub enum GlossError {
    /// A rule lacks a separator, or one of its patterns cannot be read.
    RuleSyntax(String),
    /// A word class or category is named that has no entry.
    UnknownCategoryOrClass(String),
    /// A word is asked for that the vocabulary does not hold.
    UnknownWord(String),
    /// The language description is not of the expected shape.
    Schema(String),
    /// More multigraphs are declared than there are stand-ins; carries their
    /// number.
    MultigraphCapacity(usize),
}

/// An error as plain values.
pub enum ErrorView {
    RuleSyntax(Seq<char>),
    UnknownCategoryOrClass(Seq<char>),
    UnknownWord(Seq<char>),
    Schema(Seq<char>),
    MultigraphCapacity(nat),
}

impl View for GlossError {
    type V = ErrorView;

    open spec fn view(&self) -> ErrorView {
        match self {
            GlossError::RuleSyntax(t) => ErrorView::RuleSyntax(t@),
            GlossError::UnknownCategoryOrClass(t) => ErrorView::UnknownCategoryOrClass(t@),
            GlossError::UnknownWord(t) => ErrorView::UnknownWord(t@),
            GlossError::Schema(t) => ErrorView::Schema(t@),
            GlossError::MultigraphCapacity(n) => ErrorView::MultigraphCapacity(*n as nat),
        }
    }
}

impl ErrorView {
    /// The text at fault; none for a table that is too long.
    pub open spec fn subject(self) -> Seq<char> {
        match self {
            ErrorView::RuleSyntax(t) => t,
            ErrorView::UnknownCategoryOrClass(t) => t,
            ErrorView::UnknownWord(t) => t,
            ErrorView::Schema(t) => t,
            ErrorView::MultigraphCapacity(_) => Seq::empty(),
        }
    }
}

impl GlossError {
    /// The text at fault, for a message to the user.
    pub fn subject(&self) -> (out: String)
        ensures
            out@ == self@.subject(),
    {
        match self {
            GlossError::RuleSyntax(t) => t.clone(),
            GlossError::UnknownCategoryOrClass(t) => t.clone(),
            GlossError::UnknownWord(t) => t.clone(),
            GlossError::Schema(t) => t.clone(),
            GlossError::MultigraphCapacity(_) => String::new(),
        }
    }

    /// The kind of error, in words.
    pub fn kind(&self) -> (out: &'static str)
        ensures
            out@ == match self@ {
                ErrorView::RuleSyntax(_) => "rule syntax error"@,
                ErrorView::UnknownCategoryOrClass(_) => "unknown category or class"@,
                ErrorView::UnknownWord(_) => "unknown word"@,
                ErrorView::Schema(_) => "schema error"@,
                ErrorView::MultigraphCapacity(_) => "too many multigraphs"@,
            },
    {
        match self {
            GlossError::RuleSyntax(_) => "rule syntax error",
            GlossError::UnknownCategoryOrClass(_) => "unknown category or class",
            GlossError::UnknownWord(_) => "unknown word",
            GlossError::Schema(_) => "schema error",
            GlossError::MultigraphCapacity(_) => "too many multigraphs",
        }
    }
}

} // verus!
