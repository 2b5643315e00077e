//! Errors shared by the lexer, the parser and the HTML generator.

use vstd::prelude::*;

use crate::position::Pos;
use crate::strfmt::{append_str, dec_digits, usize_to_string};

verus! {

/// An error of the conversion pipeline.
///
/// `Eof` signals that the input is exhausted; the driving loop treats it
/// as normal termination, never as a defect. `UnexpectedChar` is a
/// lexical mismatch against an explicitly required byte,
/// `UnexpectedToken` a grammar-level mismatch, and `Msg` wraps the
/// description of any other failure.
#[derive(Clone, Debug)]
pub enum Error {
    Eof,
    Msg(String),
    UnexpectedChar { actual: u8, expected: Vec<u8>, pos: Pos },
    UnexpectedToken { actual: String, expected: String, pos: Pos },
}

/// The mathematical value of an [`Error`].
pub enum ErrorView {
    Eof,
    Msg(Seq<char>),
    UnexpectedChar { actual: u8, expected: Seq<u8>, pos: Pos },
    UnexpectedToken { actual: Seq<char>, expected: Seq<char>, pos: Pos },
}

impl View for Error {
    type V = ErrorView;

    open spec fn view(&self) -> ErrorView {
        match self {
            Error::Eof => ErrorView::Eof,
            Error::Msg(message) => ErrorView::Msg(message@),
            Error::UnexpectedChar { actual, expected, pos } => ErrorView::UnexpectedChar {
                actual: *actual,
                expected: expected@,
                pos: *pos,
            },
            Error::UnexpectedToken { actual, expected, pos } => ErrorView::UnexpectedToken {
                actual: actual@,
                expected: expected@,
                pos: *pos,
            },
        }
    }
}

/// The rendering of a list of expected bytes, each as its decimal value,
/// joined by `` `, ` ``.
pub open spec fn joined_expected(expected: Seq<u8>) -> Seq<char>
    decreases expected.len(),
{
    if expected.len() == 0 {
        Seq::empty()
    } else if expected.len() == 1 {
        dec_digits(expected[0] as nat)
    } else {
        joined_expected(expected.drop_last()) + "`, `"@ + dec_digits(expected.last() as nat)
    }
}

/// The description of the expected bytes in an `UnexpectedChar` message:
/// a single byte is shown in backquotes, several as ``one of `..` ``.
pub open spec fn expected_text(expected: Seq<u8>) -> Seq<char> {
    if expected.len() == 1 {
        "`"@ + dec_digits(expected[0] as nat) + "`"@
    } else {
        "one of `"@ + joined_expected(expected) + "`"@
    }
}

/// Describe a list of expected bytes for an error message.
pub fn expected_chars(expected: &[u8]) -> (r: String)
    ensures
        r@ == expected_text(expected@),
{
    if expected.len() == 1 {
        let mut s = String::new();
        append_str(&mut s, "`");
        let digits = usize_to_string(expected[0] as usize);
        append_str(&mut s, digits.as_str());
        append_str(&mut s, "`");
        proof {
            assert(s@ =~= expected_text(expected@));
        }
        s
    } else {
        let mut s = String::new();
        append_str(&mut s, "one of `");
        let mut i: usize = 0;
        let ghost prefix = "one of `"@;
        while i < expected.len()
            invariant
                0 <= i <= expected@.len(),
                s@ == prefix + joined_expected(expected@.take(i as int)),
            decreases expected@.len() - i,
        {
            if i > 0 {
                append_str(&mut s, "`, `");
            }
            let digits = usize_to_string(expected[i] as usize);
            append_str(&mut s, digits.as_str());
            proof {
                let t = expected@.take(i + 1 as int);
                assert(t.drop_last() =~= expected@.take(i as int));
                assert(t.last() == expected@[i as int]);
                if i == 0 {
                    assert(s@ =~= prefix + joined_expected(t));
                } else {
                    assert(s@ =~= prefix + joined_expected(t));
                }
            }
            i = i + 1;
        }
        append_str(&mut s, "`");
        proof {
            assert(expected@.take(expected@.len() as int) =~= expected@);
            assert(s@ =~= expected_text(expected@));
        }
        s
    }
}

/// The `line:column: expected ` prefix of a diagnostic message.
pub open spec fn position_prefix(pos: Pos) -> Seq<char> {
    dec_digits(pos.line as nat) + ":"@ + dec_digits(pos.column as nat) + ": expected "@
}

/// The `` ` on line .., column ..`` tail of a diagnostic message.
pub open spec fn found_suffix(pos: Pos) -> Seq<char> {
    "` on line "@ + dec_digits(pos.line as nat) + ", column "@ + dec_digits(pos.column as nat)
}

/// The user-readable message for an error, in the exact diagnostic
/// format `line:column: expected .., but found `..` on line .., column ..`.
pub open spec fn error_message(e: ErrorView) -> Seq<char> {
    match e {
        ErrorView::Eof => "end of file"@,
        ErrorView::Msg(message) => message,
        ErrorView::UnexpectedChar { actual, expected, pos } => position_prefix(pos)
            + expected_text(expected) + ", but found `"@ + dec_digits(actual as nat) + found_suffix(
            pos,
        ),
        ErrorView::UnexpectedToken { actual, expected, pos } => position_prefix(pos) + expected
            + ", but found `"@ + actual + found_suffix(pos),
    }
}

impl Error {
    /// Render the error as a user-readable message.
    pub fn to_message(&self) -> (r: String)
        ensures
            r@ == error_message(self@),
    {
        match self {
            Error::Eof => "end of file".to_owned(),
            Error::Msg(message) => message.clone(),
            Error::UnexpectedChar { actual, expected, pos } => {
                let mut s = String::new();
                let line = usize_to_string(pos.line);
                let column = usize_to_string(pos.column);
                append_str(&mut s, line.as_str());
                append_str(&mut s, ":");
                append_str(&mut s, column.as_str());
                append_str(&mut s, ": expected ");
                let description = expected_chars(expected.as_slice());
                append_str(&mut s, description.as_str());
                append_str(&mut s, ", but found `");
                let shown = usize_to_string(*actual as usize);
                append_str(&mut s, shown.as_str());
                append_str(&mut s, "` on line ");
                append_str(&mut s, line.as_str());
                append_str(&mut s, ", column ");
                append_str(&mut s, column.as_str());
                proof {
                    assert(s@ =~= error_message(self@));
                }
                s
            },
            Error::UnexpectedToken { actual, expected, pos } => {
                let mut s = String::new();
                let line = usize_to_string(pos.line);
                let column = usize_to_string(pos.column);
                append_str(&mut s, line.as_str());
                append_str(&mut s, ":");
                append_str(&mut s, column.as_str());
                append_str(&mut s, ": expected ");
                append_str(&mut s, expected.as_str());
                append_str(&mut s, ", but found `");
                append_str(&mut s, actual.as_str());
                append_str(&mut s, "` on line ");
                append_str(&mut s, line.as_str());
                append_str(&mut s, ", column ");
                append_str(&mut s, column.as_str());
                proof {
                    assert(s@ =~= error_message(self@));
                }
                s
            },
        }
    }
}

} // verus!
