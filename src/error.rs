use vstd::prelude::*;

verus! {

/// The errors of the store.
#[derive(Debug, Clone, PartialEq, Eq)]
pub enum Error {
    /// A record could not be read: an I/O failure, a malformed line or a value
    /// that does not decode.
    Read(String),
    /// A record could not be written.
    Write(String),
    /// A key holds a character outside the allowed class.
    InvalidKey(String),
}

/// The decimal digits of `n`, most significant first.
pub open spec fn decimal(n: nat) -> Seq<char>
    decreases n,
{
    if n < 10 {
        seq![digit_char(n)]
    } else {
        decimal(n / 10) + seq![digit_char(n % 10)]
    }
}

pub open spec fn digit_char(d: nat) -> char {
    ((d + 48) as u8) as char
}

/// The text of the error that reports a malformed line.
pub open spec fn line_error_text(line_number: nat, line: Seq<char>) -> Seq<char> {
    "Invalid data as line "@ + decimal(line_number) + ": `"@ + line + "`"@
}

pub open spec fn is_read_error(e: Error, text: Seq<char>) -> bool {
    e is Read && e->Read_0@ == text
}

/// The message an error is shown with.
pub open spec fn message_text(e: Error) -> Seq<char> {
    match e {
        Error::Read(s) => "Unable to read record: "@ + s@,
        Error::Write(s) => "Unable to write record: "@ + s@,
        Error::InvalidKey(s) => "Key `"@ + s@ + "` contains invalid characters"@,
    }
}

impl Error {
    /// The message this error is shown with.
    pub fn message(&self) -> (r: String)
        ensures
            r@ == message_text(*self),
    {
        match self {
            Error::Read(s) => {
                let mut t = String::from_str("Unable to read record: ");
                t.append(s.as_str());
                t
            },
            Error::Write(s) => {
                let mut t = String::from_str("Unable to write record: ");
                t.append(s.as_str());
                t
            },
            Error::InvalidKey(s) => {
                let mut t = String::from_str("Key `");
                t.append(s.as_str());
                t.append("` contains invalid characters");
                t
            },
        }
    }
}

/// Wraps the text of a failed write.
pub fn write_err(cause: String) -> (r: Error)
    ensures
        r == Error::Write(cause),
{
    Error::Write(cause)
}

/// Wraps the text of a failed read.
pub fn read_err(cause: String) -> (r: Error)
    ensures
        r == Error::Read(cause),
{
    Error::Read(cause)
}

/// The one-character text of the digit `d`.
fn digit_text(d: usize) -> (r: &'static str)
    requires
        d < 10,
    ensures
        r@ == seq![digit_char(d as nat)],
{
    proof {
        reveal_strlit("0");
        reveal_strlit("1");
        reveal_strlit("2");
        reveal_strlit("3");
        reveal_strlit("4");
        reveal_strlit("5");
        reveal_strlit("6");
        reveal_strlit("7");
        reveal_strlit("8");
        reveal_strlit("9");
    }
    let r = if d == 0 {
        "0"
    } else if d == 1 {
        "1"
    } else if d == 2 {
        "2"
    } else if d == 3 {
        "3"
    } else if d == 4 {
        "4"
    } else if d == 5 {
        "5"
    } else if d == 6 {
        "6"
    } else if d == 7 {
        "7"
    } else if d == 8 {
        "8"
    } else {
        "9"
    };
    assert(r@ =~= seq![digit_char(d as nat)]);
    r
}

/// The decimal text of `n`.
fn decimal_text(n: usize) -> (r: String)
    ensures
        r@ == decimal(n as nat),
    decreases n,
{
    if n < 10 {
        String::from_str(digit_text(n))
    } else {
        let mut r = decimal_text(n / 10);
        r.append(digit_text(n % 10));
        r
    }
}

/// The error that reports line `line_number` (counted from zero) as malformed.
pub fn line_error(line_number: usize, line: &str) -> (r: Error)
    ensures
        is_read_error(r, line_error_text(line_number as nat, line@)),
{
    proof {
        reveal_strlit("Invalid data as line ");
        reveal_strlit(": `");
        reveal_strlit("`");
    }
    let mut text = String::from_str("Invalid data as line ");
    let number = decimal_text(line_number);
    text.append(number.as_str());
    text.append(": `");
    text.append(line);
    text.append("`");
    assert(text@ =~= line_error_text(line_number as nat, line@));
    Error::Read(text)
}

} // verus!
