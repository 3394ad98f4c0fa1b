use vstd::prelude::*;
use vstd::string::StringExecFns;
use crate::generate::decimal;

verus! {

/// What can go wrong while reading a book or assembling a split one.
#[derive(Debug)]
pub enum EpubError {
    /// A required structural file is missing or does not have the expected shape.
    Structure(String),
    /// A requested split point does not exist; `available` is how many there are.
    IndexOutOfRange { index: usize, available: usize },
    /// A required content file could not be read from the archive.
    ResourceRead(String),
}

impl EpubError {
    /// A message that names what went wrong: the offending path or index, and for an
    /// index the valid range.
    pub fn message(&self) -> (r: String)
        ensures
            self matches EpubError::Structure(m) ==> r@ == "malformed book: "@ + m@,
            self matches EpubError::ResourceRead(p) ==> r@ == "could not read "@ + p@,
            self matches EpubError::IndexOutOfRange { index, available } ==> r@ == (if available > 0 {
                "section index "@ + decimal(index as nat) + " is out of range (valid indices: 0 to "@ + decimal(
                    (available - 1) as nat,
                ) + ")"@
            } else {
                "section index "@ + decimal(index as nat) + " is out of range (the book has no split points)"@
            }),
    {
        match self {
            EpubError::Structure(m) => {
                let mut s = String::from_str("malformed book: ");
                s.append(m.as_str());
                s
            },
            EpubError::IndexOutOfRange { index, available } => {
                let mut s = String::from_str("section index ");
                s.append(crate::generate::decimal_text(*index).as_str());
                if *available > 0 {
                    s.append(" is out of range (valid indices: 0 to ");
                    s.append(crate::generate::decimal_text(*available - 1).as_str());
                    s.append(")");
                } else {
                    s.append(" is out of range (the book has no split points)");
                }
                s
            },
            EpubError::ResourceRead(p) => {
                let mut s = String::from_str("could not read ");
                s.append(p.as_str());
                s
            },
        }
    }
}

} // verus!
