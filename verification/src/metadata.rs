//! Where a value was read from, and the documentation attached to it.

use vstd::prelude::*;
use crate::text::{decimal, push_str, string_push, push_decimal};

verus! {

/// The place a piece of source text comes from, with a line and column where it has one.
#[derive(Debug, PartialEq, Eq, Clone)]
pub enum Location {
    Native,
    Prelude { line: usize, column: usize },
    Stdin { line: usize, column: usize },
    File { path: String, line: usize, column: usize },
}

/// What the reader records about a value it read.
#[derive(Debug, PartialEq, Eq, Clone)]
pub struct Metadata {
    pub read_name: String,
    pub location: Location,
    pub documentation: String,
}

/// The rendering of a line and column: `line:column`.
pub open spec fn line_column_text(line: usize, column: usize) -> Seq<char> {
    decimal(line as nat) + seq![':'] + decimal(column as nat)
}

impl Location {
    /// The text that `to_string` gives for this location.
    pub open spec fn text(&self) -> Seq<char> {
        match self {
            Location::Native => "Rust source"@,
            Location::Prelude { line, column } => "Prelude:"@ + line_column_text(*line, *column),
            Location::Stdin { line, column } => "stdin:"@ + line_column_text(*line, *column),
            Location::File { path, line, column } => path@ + seq![':'] + line_column_text(*line, *column),
        }
    }

    /// The line of this location, where it has one.
    pub open spec fn line_of(&self) -> Option<usize> {
        match self {
            Location::Native => None,
            Location::Prelude { line, .. } => Some(*line),
            Location::Stdin { line, .. } => Some(*line),
            Location::File { line, .. } => Some(*line),
        }
    }

    /// The column of this location, where it has one.
    pub open spec fn column_of(&self) -> Option<usize> {
        match self {
            Location::Native => None,
            Location::Prelude { column, .. } => Some(*column),
            Location::Stdin { column, .. } => Some(*column),
            Location::File { column, .. } => Some(*column),
        }
    }

    /// The same kind of location, with another line and column.
    pub open spec fn with_position(&self, line: usize, column: usize) -> Location {
        match self {
            Location::Native => Location::Native,
            Location::Prelude { .. } => Location::Prelude { line, column },
            Location::Stdin { .. } => Location::Stdin { line, column },
            Location::File { path, .. } => Location::File { path: *path, line, column },
        }
    }

    /// A copy of the location.
    pub fn duplicate(&self) -> (r: Location)
        ensures
            r == *self,
    {
        match self {
            Location::Native => Location::Native,
            Location::Prelude { line, column } => Location::Prelude { line: *line, column: *column },
            Location::Stdin { line, column } => Location::Stdin { line: *line, column: *column },
            Location::File { path, line, column } => Location::File { path: path.clone(), line: *line, column: *column },
        }
    }

    /// The same kind of location, with another line and column.
    pub fn moved(&self, line: usize, column: usize) -> (r: Location)
        ensures
            r == self.with_position(line, column),
    {
        match self {
            Location::Native => Location::Native,
            Location::Prelude { .. } => Location::Prelude { line, column },
            Location::Stdin { .. } => Location::Stdin { line, column },
            Location::File { path, .. } => Location::File { path: path.clone(), line, column },
        }
    }

    /// The path of a file location.
    pub fn get_file(&self) -> (r: Option<String>)
        ensures
            match self {
                Location::File { path, .. } => r matches Some(p) && p@ == path@,
                _ => r is None,
            },
    {
        match self {
            Location::File { path, .. } => Some(path.clone()),
            _ => None,
        }
    }

    /// A human-readable rendering, such as `stdin:3:7`.
    pub fn to_string(&self) -> (s: String)
        ensures
            s@ == self.text(),
    {
        let mut s = String::new();
        match self {
            Location::Native => {
                push_str(&mut s, "Rust source");
            },
            Location::Prelude { line, column } => {
                push_str(&mut s, "Prelude:");
                push_line_column(&mut s, *line, *column);
            },
            Location::Stdin { line, column } => {
                push_str(&mut s, "stdin:");
                push_line_column(&mut s, *line, *column);
            },
            Location::File { path, line, column } => {
                push_str(&mut s, path.as_str());
                string_push(&mut s, ':');
                push_line_column(&mut s, *line, *column);
            },
        }
        assert(s@ =~= self.text());
        s
    }

    /// The line of this location, where it has one.
    pub fn get_line(&self) -> (r: Option<usize>)
        ensures
            r == self.line_of(),
    {
        match self {
            Location::Native => None,
            Location::Prelude { line, .. } => Some(*line),
            Location::Stdin { line, .. } => Some(*line),
            Location::File { line, .. } => Some(*line),
        }
    }

    /// The column of this location, where it has one.
    pub fn get_column(&self) -> (r: Option<usize>)
        ensures
            r == self.column_of(),
    {
        match self {
            Location::Native => None,
            Location::Prelude { column, .. } => Some(*column),
            Location::Stdin { column, .. } => Some(*column),
            Location::File { column, .. } => Some(*column),
        }
    }

    /// Moves to the beginning of the next line: the line grows by one and the column becomes 0.
    pub fn step_line(&mut self)
        requires
            old(self).line_of() matches Some(l) ==> l < usize::MAX,
        ensures
            match old(self).line_of() {
                None => *final(self) == *old(self),
                Some(l) => *final(self) == old(self).with_position((l + 1) as usize, 0),
            },
    {
        match self {
            Location::Native => {},
            Location::Prelude { line, column } => {
                *line = *line + 1;
                *column = 0;
            },
            Location::Stdin { line, column } => {
                *line = *line + 1;
                *column = 0;
            },
            Location::File { line, column, .. } => {
                *line = *line + 1;
                *column = 0;
            },
        }
    }

    /// Moves one column to the right.
    pub fn step_column(&mut self)
        requires
            old(self).column_of() matches Some(c) ==> c < usize::MAX,
        ensures
            match (old(self).line_of(), old(self).column_of()) {
                (Some(l), Some(c)) => *final(self) == old(self).with_position(l, (c + 1) as usize),
                _ => *final(self) == *old(self),
            },
    {
        match self {
            Location::Native => {},
            Location::Prelude { column, .. } => {
                *column = *column + 1;
            },
            Location::Stdin { column, .. } => {
                *column = *column + 1;
            },
            Location::File { column, .. } => {
                *column = *column + 1;
            },
        }
    }
}

fn push_line_column(s: &mut String, line: usize, column: usize)
    ensures
        final(s)@ == old(s)@ + line_column_text(line, column),
{
    push_decimal(s, line as u64);
    string_push(s, ':');
    push_decimal(s, column as u64);
    assert(final(s)@ =~= old(s)@ + line_column_text(line, column));
}

} // verus!
