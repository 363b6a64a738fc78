//! The error taxonomy: what a failed fetch, a failed store operation, and a
//! failed run each report, with each error's rendered description.

use vstd::prelude::*;
use vstd::string::StringExecFns;

use crate::codec::push_char;

verus! {

/// One decimal digit's character.
pub open spec fn digit_char(d: nat) -> char {
    if d == 0 {
        '0'
    } else if d == 1 {
        '1'
    } else if d == 2 {
        '2'
    } else if d == 3 {
        '3'
    } else if d == 4 {
        '4'
    } else if d == 5 {
        '5'
    } else if d == 6 {
        '6'
    } else if d == 7 {
        '7'
    } else if d == 8 {
        '8'
    } else {
        '9'
    }
}

/// A number written in decimal, most significant digit first, no sign, no
/// leading zero except for zero itself.
pub open spec fn dec_chars(n: nat) -> Seq<char>
    decreases n,
{
    if n < 10 {
        seq![digit_char(n)]
    } else {
        dec_chars(n / 10).push(digit_char(n % 10))
    }
}

fn digit_char_of(d: u16) -> (c: char)
    requires
        d < 10,
    ensures
        c == digit_char(d as nat),
{
    if d == 0 {
        '0'
    } else if d == 1 {
        '1'
    } else if d == 2 {
        '2'
    } else if d == 3 {
        '3'
    } else if d == 4 {
        '4'
    } else if d == 5 {
        '5'
    } else if d == 6 {
        '6'
    } else if d == 7 {
        '7'
    } else if d == 8 {
        '8'
    } else {
        '9'
    }
}

/// Append a number's decimal form.
fn push_decimal(out: &mut String, n: u16)
    ensures
        final(out)@ == old(out)@ + dec_chars(n as nat),
    decreases n,
{
    if n < 10 {
        push_char(out, digit_char_of(n));
    } else {
        push_decimal(out, n / 10);
        push_char(out, digit_char_of(n % 10));
        proof {
            assert(old(out)@ + dec_chars((n / 10) as nat) + seq![digit_char((n % 10) as nat)]
                =~= old(out)@ + dec_chars(n as nat));
        }
    }
}

/// Why one fetch attempt produced no document.
#[derive(Debug)]
pub enum FetchError {
    /// The transport failed before a response arrived (connection refused,
    /// name resolution, an interrupted transfer).
    Transport { detail: String },
    /// A response arrived, but with an unsuccessful HTTP status code.
    Status { code: u16 },
    /// The response body was not a complete, well-formed feed; a body with no
    /// complete top-level feed element is treated like any other parse failure.
    Parse { detail: String },
}

/// Why the document store could not be opened, read or written.
#[derive(Debug)]
pub enum StoreError {
    /// Another live holder already owns the backing file's exclusive lock.
    Lock { detail: String },
    /// Reading, writing or syncing the backing file failed.
    Io { detail: String },
}

/// The one fatal outcome of a supervised run: the polling loop, which has no
/// termination condition of its own, returned anyway.
#[derive(Clone, Copy, Debug, PartialEq, Eq, Structural)]
pub enum RunError {
    FatalSchedulerExit,
}

/// What a fetch failure reads as.
pub open spec fn fetch_error_chars(e: FetchError) -> Seq<char> {
    match e {
        FetchError::Transport { detail } => "transport failure: "@ + detail@,
        FetchError::Status { code } => "unsuccessful HTTP status "@ + dec_chars(code as nat),
        FetchError::Parse { detail } => "parse failure: "@ + detail@,
    }
}

/// What a store failure reads as.
pub open spec fn store_error_chars(e: StoreError) -> Seq<char> {
    match e {
        StoreError::Lock { detail } => detail@,
        StoreError::Io { detail } => "store I/O failure: "@ + detail@,
    }
}

/// What the fatal run outcome reads as.
pub open spec fn run_error_chars(e: RunError) -> Seq<char> {
    "fetch loop exited unexpectedly"@
}

impl FetchError {
    pub fn message(&self) -> (m: String)
        ensures
            m@ == fetch_error_chars(*self),
    {
        match self {
            FetchError::Transport { detail } => {
                let mut m = String::from_str("transport failure: ");
                m.append(detail.as_str());
                m
            },
            FetchError::Status { code } => {
                let mut m = String::from_str("unsuccessful HTTP status ");
                push_decimal(&mut m, *code);
                m
            },
            FetchError::Parse { detail } => {
                let mut m = String::from_str("parse failure: ");
                m.append(detail.as_str());
                m
            },
        }
    }
}

impl StoreError {
    pub fn message(&self) -> (m: String)
        ensures
            m@ == store_error_chars(*self),
    {
        match self {
            StoreError::Lock { detail } => detail.clone(),
            StoreError::Io { detail } => {
                let mut m = String::from_str("store I/O failure: ");
                m.append(detail.as_str());
                m
            },
        }
    }
}

impl RunError {
    pub fn message(&self) -> (m: String)
        ensures
            m@ == run_error_chars(*self),
    {
        String::from_str("fetch loop exited unexpectedly")
    }
}

} // verus!
