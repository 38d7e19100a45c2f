//! The errors the app reports to its interface.
use vstd::prelude::*;
use vstd::string::StringExecFns;

verus! {

/// An error of the app, by the part that failed.
#[derive(Debug)]
pub enum LpError {
    Db(String),
    Calendar(String),
    Ai(String),
    Io(String),
    Other(String),
}

impl LpError {
    /// The error as a sentence.
    pub fn message(&self) -> (s: String)
        ensures
            s@ == match self {
                LpError::Db(m) => "Database error: "@ + m@,
                LpError::Calendar(m) => "Calendar error: "@ + m@,
                LpError::Ai(m) => "AI error: "@ + m@,
                LpError::Io(m) => "IO error: "@ + m@,
                LpError::Other(m) => m@,
            },
    {
        let (head, m) = match self {
            LpError::Db(m) => ("Database error: ", m),
            LpError::Calendar(m) => ("Calendar error: ", m),
            LpError::Ai(m) => ("AI error: ", m),
            LpError::Io(m) => ("IO error: ", m),
            LpError::Other(m) => ("", m),
        };
        let mut s = head.to_owned();
        s.append(m.as_str());
        proof {
            if self is Other {
                reveal_strlit("");
                assert(s@ =~= m@);
            }
        }
        s
    }
}

} // verus!
