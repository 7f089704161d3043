//! Error types surfaced by the library.

use vstd::prelude::*;

use crate::kdl_bridge::{error_text, kdl_error_text};
use crate::text::{chars_of, push_all, string_of};

verus! {

/// `std::io::Error`, opaque to Verus.
#[verifier::external_type_specification]
#[verifier::external_body]
pub struct ExIoError(std::io::Error);

/// `miette::SourceSpan`, opaque to Verus.
#[verifier::external_type_specification]
#[verifier::external_body]
pub struct ExSourceSpan(miette::SourceSpan);

/// Errors produced by the library.
#[derive(Debug)]
pub enum FmtError {
    /// The input could not be parsed as KDL.
    Parse(kdl::KdlError),
    /// I/O failure while reading formatter inputs.
    Io(std::io::Error),
    /// A config file was present but malformed.
    InvalidConfig(String),
    /// A non-standard expression string was encountered while disallowed.
    ExpressionStringRejected {
        span: miette::SourceSpan,
        line: usize,
        column: usize,
        node_name: String,
        entry_label: String,
    },
}

/// The decimal digits of `n`.
pub open spec fn decimal(n: nat) -> Seq<char>
    decreases n,
{
    if n < 10 {
        seq![digit(n)]
    } else {
        decimal(n / 10) + seq![digit(n % 10)]
    }
}

/// The digit character for `d` (below ten).
pub open spec fn digit(d: nat) -> char {
    if d == 0 {
        '0'
    } else if d == 1 {
        '1'
    } else if d == 2 {
        '2'
    } else if d == 3 {
        '3'
    } else if d == 4 {
        '4'
    } else if d == 5 {
        '5'
    } else if d == 6 {
        '6'
    } else if d == 7 {
        '7'
    } else if d == 8 {
        '8'
    } else {
        '9'
    }
}

fn digit_char(d: usize) -> (c: char)
    requires
        d < 10,
    ensures
        c == digit(d as nat),
{
    if d == 0 {
        '0'
    } else if d == 1 {
        '1'
    } else if d == 2 {
        '2'
    } else if d == 3 {
        '3'
    } else if d == 4 {
        '4'
    } else if d == 5 {
        '5'
    } else if d == 6 {
        '6'
    } else if d == 7 {
        '7'
    } else if d == 8 {
        '8'
    } else {
        '9'
    }
}

/// The decimal digits of `n`, as `usize`'s `Display` writes them.
pub fn decimal_chars(n: usize) -> (r: Vec<char>)
    ensures
        r@ == decimal(n as nat),
    decreases n,
{
    if n < 10 {
        let r = vec![digit_char(n)];
        assert(r@ =~= seq![digit(n as nat)]);
        r
    } else {
        let mut r = decimal_chars(n / 10);
        r.push(digit_char(n % 10));
        r
    }
}

impl FmtError {
    /// The error's message: what its `Display` shows.
    pub fn message(&self) -> (r: String)
        ensures
            self matches FmtError::Parse(e) ==> r@ == kdl_error_text(*e),
            self matches FmtError::Io(_) ==> r@.len() >= 5 && r@.take(5) == "I/O: "@,
            self matches FmtError::InvalidConfig(s) ==> r@ == "invalid config: "@ + s@,
            self matches FmtError::ExpressionStringRejected {
                line,
                column,
                node_name,
                entry_label,
                ..
            } ==> r@ == "Expression strings are disabled at line "@ + decimal(line as nat)
                + ", column "@ + decimal(column as nat) + " in node `"@ + node_name@ + "` "@
                + entry_label@
                + ". Re-run without `--no-expression-strings` to allow backtick-delimited values."@,
    {
        match self {
            FmtError::Parse(e) => error_text(e),
            FmtError::Io(e) => {
                let mut r = chars_of("I/O: ");
                let t = io_error_text(e);
                let tc = chars_of(t.as_str());
                push_all(&mut r, tc.as_slice());
                proof {
                    reveal_strlit("I/O: ");
                    assert(r@.take(5) =~= "I/O: "@);
                }
                string_of(r.as_slice())
            },
            FmtError::InvalidConfig(s) => {
                let mut r = chars_of("invalid config: ");
                let sc = chars_of(s.as_str());
                push_all(&mut r, sc.as_slice());
                string_of(r.as_slice())
            },
            FmtError::ExpressionStringRejected { line, column, node_name, entry_label, .. } => {
                let mut r = chars_of("Expression strings are disabled at line ");
                push_all(&mut r, decimal_chars(*line).as_slice());
                push_all(&mut r, chars_of(", column ").as_slice());
                push_all(&mut r, decimal_chars(*column).as_slice());
                push_all(&mut r, chars_of(" in node `").as_slice());
                push_all(&mut r, chars_of(node_name.as_str()).as_slice());
                push_all(&mut r, chars_of("` ").as_slice());
                push_all(&mut r, chars_of(entry_label.as_str()).as_slice());
                push_all(
                    &mut r,
                    chars_of(
                        ". Re-run without `--no-expression-strings` to allow backtick-delimited values.",
                    ).as_slice(),
                );
                string_of(r.as_slice())
            },
        }
    }
}

/// The text of an I/O error (its `Display`). The error is opaque, so nothing
/// is stated of the text.
#[verifier::external_body]
fn io_error_text(e: &std::io::Error) -> String {
    e.to_string()
}

impl From<kdl::KdlError> for FmtError {
    fn from(e: kdl::KdlError) -> (r: Self)
        ensures
            r == FmtError::Parse(e),
    {
        FmtError::Parse(e)
    }
}

impl vstd::std_specs::convert::FromSpecImpl<kdl::KdlError> for FmtError {
    open spec fn obeys_from_spec() -> bool {
        true
    }

    open spec fn from_spec(v: kdl::KdlError) -> Self {
        FmtError::Parse(v)
    }
}

impl From<std::io::Error> for FmtError {
    fn from(e: std::io::Error) -> (r: Self)
        ensures
            r == FmtError::Io(e),
    {
        FmtError::Io(e)
    }
}

impl vstd::std_specs::convert::FromSpecImpl<std::io::Error> for FmtError {
    open spec fn obeys_from_spec() -> bool {
        true
    }

    open spec fn from_spec(v: std::io::Error) -> Self {
        FmtError::Io(v)
    }
}

} // verus!
