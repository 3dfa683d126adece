//! What the library reports when it refuses an input.

use vstd::prelude::*;
use std::ops::Range;
use crate::text::decimal;
use crate::text::decimal_string;

verus! {

/// What an operation of this library reports instead of panicking.
#[derive(Debug)]
#[allow(inconsistent_fields)]
pub enum Error {
    /// A failure of the surrounding input or output, carried as its message.
    IO(String),
    /// A scalar that fell outside the half-open range `range`.
    OutOfBounds { value: i32, range: Range<i32> },
    /// A grid coordinate that fell outside a buffer: `range` holds the valid columns and rows.
    OutOfBounds2D { point: (usize, usize), range: (Range<usize>, Range<usize>) },
}

/// What an operation that may refuse its input returns.
pub type Result<T> = std::result::Result<T, Error>;

impl Error {
    /// The name of the kind of failure.
    pub open spec fn kind_spec(&self) -> Seq<char> {
        match self {
            Error::IO(..) => "I/O"@,
            Error::OutOfBounds2D { .. } => "OutOfBounds2D"@,
            Error::OutOfBounds { .. } => "OutOfBounds"@,
        }
    }

    /// What went wrong, in words.
    pub open spec fn message_spec(&self) -> Seq<char> {
        match self {
            Error::IO(m) => m@,
            Error::OutOfBounds { value, range } => "value "@ + decimal(*value as int)
                + " out of bounds ("@ + decimal(range.start as int) + ".."@ + decimal(
                range.end as int,
            ) + ")"@,
            Error::OutOfBounds2D { point, range } => "point ("@ + decimal(point.0 as int) + ", "@
                + decimal(point.1 as int) + ") is out of bounds ("@ + decimal(
                range.0.start as int,
            ) + ".."@ + decimal(range.0.end as int) + ", "@ + decimal(range.1.start as int)
                + ".."@ + decimal(range.1.end as int) + ")"@,
        }
    }

    /// The failure in one line: its kind, a colon and what went wrong.
    pub open spec fn to_string_spec(&self) -> Seq<char> {
        self.kind_spec() + ": "@ + self.message_spec()
    }

    /// The name of the kind of failure.
    pub fn kind(&self) -> (k: &'static str)
        ensures
            k@ == self.kind_spec(),
    {
        match self {
            Self::IO(..) => "I/O",
            Self::OutOfBounds2D { .. } => "OutOfBounds2D",
            Self::OutOfBounds { .. } => "OutOfBounds",
        }
    }

    /// What went wrong, in words.
    pub fn message(&self) -> (m: Option<String>)
        ensures
            m matches Some(s) && s@ == self.message_spec(),
    {
        match self {
            Self::IO(m) => Some(m.clone()),
            Self::OutOfBounds { value, range } => {
                let mut s = String::from_str("value ");
                s.append(decimal_string(*value as i128).as_str());
                s.append(" out of bounds (");
                s.append(decimal_string(range.start as i128).as_str());
                s.append("..");
                s.append(decimal_string(range.end as i128).as_str());
                s.append(")");
                Some(s)
            },
            Self::OutOfBounds2D { point, range } => {
                let mut s = String::from_str("point (");
                s.append(decimal_string(point.0 as i128).as_str());
                s.append(", ");
                s.append(decimal_string(point.1 as i128).as_str());
                s.append(") is out of bounds (");
                s.append(decimal_string(range.0.start as i128).as_str());
                s.append("..");
                s.append(decimal_string(range.0.end as i128).as_str());
                s.append(", ");
                s.append(decimal_string(range.1.start as i128).as_str());
                s.append("..");
                s.append(decimal_string(range.1.end as i128).as_str());
                s.append(")");
                Some(s)
            },
        }
    }

    /// The failure in one line: its kind, a colon and what went wrong.
    pub fn to_string(&self) -> (s: String)
        ensures
            s@ == self.to_string_spec(),
    {
        let mut s = String::from_str(self.kind());
        match self.message() {
            Some(m) => {
                s.append(": ");
                s.append(m.as_str());
            },
            None => {},
        }
        s
    }
}

} // verus!
