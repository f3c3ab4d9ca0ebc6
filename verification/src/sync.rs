//! Following the editor's cursor line.
use vstd::prelude::*;

use crate::text::{parse_usize, parse_usize_spec, trim, trim_seq};

verus! {

/// Reads the editor's cursor line from a file the editor keeps up to date.
#[derive(Debug, Default)]
pub struct CursorSync {
    path: Option<String>,
    last_line: Option<usize>,
}

/// The cursor line handed out when cursor following is `enabled`, `last` was handed out
/// before, and the cursor file holds `contents`: the trimmed contents read as a line number,
/// if it is positive and not `last`.
pub open spec fn changed_line_of(enabled: bool, last: Option<usize>, contents: Option<Seq<char>>) -> Option<usize> {
    match (enabled, contents) {
        (true, Some(text)) => match parse_usize_spec(trim_seq(text)) {
            Some(line) => if line == 0 || last == Some(line) {
                None
            } else {
                Some(line)
            },
            None => None,
        },
        _ => None,
    }
}

/// A cursor line is handed out once: read again from unchanged contents, it gives nothing;
/// and line zero is never handed out.
pub proof fn lemma_cursor_line_handed_out_once(enabled: bool, last: Option<usize>, contents: Option<Seq<char>>)
    ensures
        ({
            let first = changed_line_of(enabled, last, contents);
            let last_after = if first is Some { first } else { last };
            changed_line_of(enabled, last_after, contents) is None
        }),
        changed_line_of(enabled, last, contents) != Some(0usize),
{
}

impl CursorSync {
    /// The file that holds the cursor line, if any.
    pub closed spec fn path_of(&self) -> Option<Seq<char>> {
        match self.path {
            Some(p) => Some(p@),
            None => None,
        }
    }

    /// The last line handed out.
    pub closed spec fn last_line_of(&self) -> Option<usize> {
        self.last_line
    }

    pub fn new(path: Option<String>) -> (s: CursorSync)
        ensures
            s.path_of() == match path {
                Some(p) => Some(p@),
                None => None::<Seq<char>>,
            },
            s.last_line_of() is None,
    {
        CursorSync { path, last_line: None }
    }

    pub fn is_enabled(&self) -> (b: bool)
        ensures
            b == self.path_of() is Some,
    {
        self.path.is_some()
    }

    /// The file to read the cursor line from.
    pub fn path(&self) -> (p: Option<&String>)
        ensures
            match p {
                Some(s) => self.path_of() == Some(s@),
                None => self.path_of() is None,
            },
    {
        self.path.as_ref()
    }

    /// Given what the cursor file holds now (`None` when it could not be read), the line the
    /// cursor moved to: a positive number other than the last one handed out.
    pub fn take_changed_line(&mut self, contents: Option<&str>) -> (r: Option<usize>)
        ensures
            r == changed_line_of(old(self).path_of() is Some, old(self).last_line_of(), match contents {
                Some(text) => Some(text@),
                None => None,
            }),
            final(self).path_of() == old(self).path_of(),
            final(self).last_line_of() == if r is Some {
                r
            } else {
                old(self).last_line_of()
            },
    {
        if self.path.is_none() {
            return None;
        }
        let text = match contents {
            Some(text) => text,
            None => {
                return None;
            },
        };
        let trimmed = trim(text);
        let line = match parse_usize(trimmed.as_str()) {
            Some(line) => line,
            None => {
                return None;
            },
        };
        if line == 0 || self.last_line == Some(line) {
            return None;
        }
        self.last_line = Some(line);
        Some(line)
    }
}

} // verus!
