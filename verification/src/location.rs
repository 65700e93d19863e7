//! The place in the source where an error was made.

use crate::text::{decimal, to_decimal};
use vstd::prelude::*;
use vstd::string::StringExecFns;

verus! {

/// A call site: a file, a line and a column.
#[derive(Debug)]
pub struct Location {
    pub file: String,
    pub line: u32,
    pub column: u32,
}

/// The mathematical value of a [`Location`].
pub struct LocationView {
    pub file: Seq<char>,
    pub line: u32,
    pub column: u32,
}

impl View for Location {
    type V = LocationView;

    open spec fn view(&self) -> LocationView {
        LocationView { file: self.file@, line: self.line, column: self.column }
    }
}

impl LocationView {
    /// The location as text: `file:line:column`.
    pub open spec fn text(self) -> Seq<char> {
        self.file + ":"@ + decimal(self.line as nat) + ":"@ + decimal(self.column as nat)
    }
}

impl Location {
    /// The call site at line `line`, column `column` of the file `file`.
    pub fn new(file: &str, line: u32, column: u32) -> (location: Location)
        ensures
            location@ == (LocationView { file: file@, line, column }),
    {
        Location { file: String::from_str(file), line, column }
    }

    /// The file of the call site.
    pub fn file(&self) -> (file: &str)
        ensures
            file@ == self@.file,
    {
        self.file.as_str()
    }

    /// The line of the call site.
    pub fn line(&self) -> (line: u32)
        ensures
            line == self@.line,
    {
        self.line
    }

    /// The column of the call site.
    pub fn column(&self) -> (column: u32)
        ensures
            column == self@.column,
    {
        self.column
    }

    /// A copy of the location.
    pub fn duplicate(&self) -> (copy: Location)
        ensures
            copy@ == self@,
    {
        Location { file: self.file.clone(), line: self.line, column: self.column }
    }

    /// The location as text: `file:line:column`.
    pub fn to_string(&self) -> (text: String)
        ensures
            text@ == self@.text(),
    {
        let mut text = self.file.clone();
        text.append(":");
        text.append(to_decimal(self.line as u64).as_str());
        text.append(":");
        text.append(to_decimal(self.column as u64).as_str());
        text
    }
}

} // verus!
