//! The closed set of failures that encoding and decoding can report.

use vstd::prelude::*;
use vstd::string::StringExecFns;

verus! {

/// `std::io::Error`, carried through as an opaque value.
#[verifier::external_type_specification]
#[verifier::external_body]
pub struct ExIoError(std::io::Error);

/// Why an encode or decode call failed.
#[derive(Debug)]
pub enum MsgPackErr {
    /// The input ended before a declared length was satisfied.
    UnexpectedEof,
    /// A byte that cannot stand where it was found; carries that byte.
    InvalidFormat(u8),
    /// A string payload that is not valid UTF-8.
    InvalidUtf8,
    /// A value of another shape than the caller expected.
    TypeMismatch,
    /// A failure of the underlying sink or source.
    Io(std::io::Error),
}

/// What a [`MsgPackErr`] says, leaving aside the details of an I/O failure.
pub ghost enum ErrorView {
    UnexpectedEof,
    InvalidFormat(u8),
    InvalidUtf8,
    TypeMismatch,
    Io,
}

impl View for MsgPackErr {
    type V = ErrorView;

    open spec fn view(&self) -> ErrorView {
        match self {
            MsgPackErr::UnexpectedEof => ErrorView::UnexpectedEof,
            MsgPackErr::InvalidFormat(b) => ErrorView::InvalidFormat(*b),
            MsgPackErr::InvalidUtf8 => ErrorView::InvalidUtf8,
            MsgPackErr::TypeMismatch => ErrorView::TypeMismatch,
            MsgPackErr::Io(_) => ErrorView::Io,
        }
    }
}

/// The lower-case hexadecimal digit of a number below 16.
pub open spec fn hex_digit(n: int) -> char {
    if n == 0 {
        '0'
    } else if n == 1 {
        '1'
    } else if n == 2 {
        '2'
    } else if n == 3 {
        '3'
    } else if n == 4 {
        '4'
    } else if n == 5 {
        '5'
    } else if n == 6 {
        '6'
    } else if n == 7 {
        '7'
    } else if n == 8 {
        '8'
    } else if n == 9 {
        '9'
    } else if n == 10 {
        'a'
    } else if n == 11 {
        'b'
    } else if n == 12 {
        'c'
    } else if n == 13 {
        'd'
    } else if n == 14 {
        'e'
    } else {
        'f'
    }
}

/// A byte in hexadecimal, without a leading zero.
pub open spec fn hex(b: u8) -> Seq<char> {
    if b < 16 {
        seq![hex_digit(b as int)]
    } else {
        seq![hex_digit(b as int / 16), hex_digit(b as int % 16)]
    }
}

/// What is said of an error that is not an I/O failure.
pub open spec fn message_of(e: ErrorView) -> Seq<char> {
    match e {
        ErrorView::UnexpectedEof => "unexpected end of input"@,
        ErrorView::InvalidFormat(b) => "invalid format byte: 0x"@ + hex(b),
        ErrorView::InvalidUtf8 => "invalid utf-8 in string"@,
        ErrorView::TypeMismatch => "type mismatch"@,
        ErrorView::Io => "io error: "@,
    }
}

/// The lower-case hexadecimal digit of a number below 16, as text.
fn digit_text(n: u8) -> (s: &'static str)
    requires
        n < 16,
    ensures
        s@ == seq![hex_digit(n as int)],
{
    proof {
        reveal_strlit("0");
        reveal_strlit("1");
        reveal_strlit("2");
        reveal_strlit("3");
        reveal_strlit("4");
        reveal_strlit("5");
        reveal_strlit("6");
        reveal_strlit("7");
        reveal_strlit("8");
        reveal_strlit("9");
        reveal_strlit("a");
        reveal_strlit("b");
        reveal_strlit("c");
        reveal_strlit("d");
        reveal_strlit("e");
        reveal_strlit("f");
    }
    let s = if n == 0 {
        "0"
    } else if n == 1 {
        "1"
    } else if n == 2 {
        "2"
    } else if n == 3 {
        "3"
    } else if n == 4 {
        "4"
    } else if n == 5 {
        "5"
    } else if n == 6 {
        "6"
    } else if n == 7 {
        "7"
    } else if n == 8 {
        "8"
    } else if n == 9 {
        "9"
    } else if n == 10 {
        "a"
    } else if n == 11 {
        "b"
    } else if n == 12 {
        "c"
    } else if n == 13 {
        "d"
    } else if n == 14 {
        "e"
    } else {
        "f"
    };
    assert(s@ =~= seq![hex_digit(n as int)]);
    s
}

/// `std::io::Error`'s `to_string`: what the error says of itself. The text
/// comes from the platform, so nothing is claimed of it.
#[verifier::external_body]
pub(crate) fn io_error_text(e: &std::io::Error) -> (s: String) {
    e.to_string()
}

impl MsgPackErr {
    /// What the error says, in words. An I/O failure is introduced by
    /// `io error: ` and then speaks for itself.
    pub fn message(&self) -> (s: String)
        ensures
            self@ != ErrorView::Io ==> s@ == message_of(self@),
            self@ == ErrorView::Io ==> message_of(self@).is_prefix_of(s@),
    {
        match self {
            MsgPackErr::UnexpectedEof => String::from_str("unexpected end of input"),
            MsgPackErr::InvalidFormat(b) => {
                let head = String::from_str("invalid format byte: 0x");
                if *b < 16 {
                    head.concat(digit_text(*b))
                } else {
                    let s = head.concat(digit_text(*b / 16)).concat(digit_text(*b % 16));
                    assert(s@ =~= message_of(self@));
                    s
                }
            },
            MsgPackErr::InvalidUtf8 => String::from_str("invalid utf-8 in string"),
            MsgPackErr::TypeMismatch => String::from_str("type mismatch"),
            MsgPackErr::Io(e) => {
                let head = String::from_str("io error: ");
                let tail = io_error_text(e);
                let s = head.concat(tail.as_str());
                assert(head@ =~= s@.take(head@.len() as int));
                s
            },
        }
    }
}

/// What a write to a sink comes to: success, or the sink's failure as an
/// `Io` error.
pub fn write_outcome(r: Result<(), std::io::Error>) -> (out: Result<(), MsgPackErr>)
    ensures
        match r {
            Ok(()) => out is Ok,
            Err(e) => out matches Err(MsgPackErr::Io(inner)) && inner == e,
        },
{
    match r {
        Ok(()) => Ok(()),
        Err(e) => Err(MsgPackErr::from(e)),
    }
}

impl From<std::io::Error> for MsgPackErr {
    fn from(value: std::io::Error) -> (r: Self) {
        MsgPackErr::Io(value)
    }
}

impl vstd::std_specs::convert::FromSpecImpl<std::io::Error> for MsgPackErr {
    open spec fn obeys_from_spec() -> bool {
        true
    }

    open spec fn from_spec(value: std::io::Error) -> Self {
        MsgPackErr::Io(value)
    }
}

} // verus!
