//! Source locations.
//!
//! A location is attached to every operation and block argument.  The graph
//! itself only carries it along for diagnostics.

use crate::chars::{check_filename, filename_ok, string_to_chars};
use vstd::prelude::*;

verus! {

/// A source position: unknown, or a file name with line and column.
#[derive(Debug)]
pub enum Location {
    Unknown,
    FileLineCol { filename: String, line: u32, column: u32 },
}

/// The mathematical value of a location.
#[verifier::ext_equal]
pub enum LocationV {
    Unknown,
    FileLineCol { filename: Seq<char>, line: u32, column: u32 },
}

impl View for Location {
    type V = LocationV;

    open spec fn view(&self) -> LocationV {
        match self {
            Location::Unknown => LocationV::Unknown,
            Location::FileLineCol { filename, line, column } => LocationV::FileLineCol {
                filename: filename@,
                line: *line,
                column: *column,
            },
        }
    }
}

/// A location whose file name can be printed and read back.
pub open spec fn location_ok(l: LocationV) -> bool {
    match l {
        LocationV::Unknown => true,
        LocationV::FileLineCol { filename, .. } => filename_ok(filename),
    }
}

impl Location {
    /// An unknown location.
    pub fn unknown() -> (r: Location)
        ensures
            r@ == LocationV::Unknown,
    {
        Location::Unknown
    }

    /// A location at a line and column of a named file.  Returns the unknown
    /// location when the file name holds characters that cannot be printed.
    pub fn new(filename: &str, line: u32, column: u32) -> (r: Location)
        ensures
            filename_ok(filename@) ==> r@ == (LocationV::FileLineCol {
                filename: filename@,
                line,
                column,
            }),
            !filename_ok(filename@) ==> r@ == LocationV::Unknown,
            location_ok(r@),
    {
        let cs = string_to_chars(filename);
        if check_filename(&cs) {
            Location::FileLineCol { filename: filename.to_owned(), line, column }
        } else {
            Location::Unknown
        }
    }
}

impl Clone for Location {
    fn clone(&self) -> (r: Location)
        ensures
            r@ == self@,
    {
        match self {
            Location::Unknown => Location::Unknown,
            Location::FileLineCol { filename, line, column } => Location::FileLineCol {
                filename: filename.clone(),
                line: *line,
                column: *column,
            },
        }
    }
}

} // verus!
