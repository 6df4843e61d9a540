//! Run parameters and the parsing of the numeric ones from their text form.

use std::str::FromStr;
use vstd::prelude::*;

verus! {

/// Parameters of one run.
pub struct Config {
    /// Directory where downloaded files are stored.
    pub dest_dir: String,
    /// File that lists the URLs to download and the local names for them.
    pub list_file: String,
    /// Number of concurrent transfers.
    pub threads_num: usize,
    /// Global speed limit in bytes per second; 0 means no limit.
    pub speed_limit: usize,
}

/// Why a numeric argument was rejected.
#[derive(Debug, Clone, Copy, PartialEq, Eq, Structural)]
pub enum ArgError {
    /// The argument is empty.
    Empty,
    /// The argument is not a decimal number.
    InvalidNumber,
    /// A count that must be positive is zero.
    Zero,
    /// The value does not fit in `usize`.
    TooLarge,
}

pub open spec fn is_decimal_digit(c: char) -> bool {
    '0' <= c <= '9'
}

/// The value of a string of decimal digits.
pub open spec fn digits_value(s: Seq<char>) -> nat
    decreases s.len(),
{
    if s.len() == 0 {
        0
    } else {
        digits_value(s.drop_last()) * 10 + (s.last() as nat - '0' as nat) as nat
    }
}

/// What `usize` parsing yields for `s`: an optional `+` followed by one or
/// more decimal digits whose value fits in `usize`.
pub open spec fn usize_value(s: Seq<char>) -> Option<nat> {
    let digits = if s.len() > 0 && s[0] == '+' { s.drop_first() } else { s };
    if digits.len() > 0 && (forall|i: int| 0 <= i < digits.len() ==> is_decimal_digit(
        #[trigger] digits[i],
    )) && digits_value(digits) <= usize::MAX {
        Some(digits_value(digits))
    } else {
        None
    }
}

/// Relies on `usize::from_str`: it accepts an optional `+` and then decimal
/// digits only, and fails on an empty string or a value past `usize::MAX`.
#[verifier::external_body]
fn parse_usize(s: &str) -> (r: Option<usize>)
    ensures
        r is None <==> usize_value(s@) is None,
        r matches Some(n) ==> usize_value(s@) == Some(n as nat),
{
    usize::from_str(s).ok()
}

/// Parses a positive number of worker threads.
pub fn parse_threads_num(arg: &str) -> (r: Result<usize, ArgError>)
    ensures
        match usize_value(arg@) {
            None => r == Err::<usize, ArgError>(ArgError::InvalidNumber),
            Some(n) => if n == 0 {
                r == Err::<usize, ArgError>(ArgError::Zero)
            } else {
                r == Ok::<usize, ArgError>(n as usize)
            },
        },
{
    match parse_usize(arg) {
        None => Err(ArgError::InvalidNumber),
        Some(0) => Err(ArgError::Zero),
        Some(n) => Ok(n),
    }
}

/// The factor that a trailing unit letter stands for: `k`/`K` for 1024 and
/// `m`/`M` for 1024 * 1024; any other character is no unit.
pub open spec fn unit_factor(c: char) -> nat {
    if c == 'k' || c == 'K' {
        1024
    } else if c == 'm' || c == 'M' {
        1024 * 1024
    } else {
        1
    }
}

/// What a speed limit argument means: a decimal number of bytes per second,
/// optionally followed by a unit letter.
pub open spec fn speed_limit_value(s: Seq<char>) -> Result<nat, ArgError> {
    if s.len() == 0 {
        Err(ArgError::Empty)
    } else {
        let factor = unit_factor(s.last());
        let number = if factor == 1 { s } else { s.drop_last() };
        match usize_value(number) {
            None => Err(ArgError::InvalidNumber),
            Some(n) => if n * factor <= usize::MAX {
                Ok(n * factor)
            } else {
                Err(ArgError::TooLarge)
            },
        }
    }
}

/// Parses a speed limit in bytes per second; a `k`/`K` suffix multiplies by
/// 1024 and an `m`/`M` suffix by 1024 * 1024.
pub fn parse_speed_limit(arg: &str) -> (r: Result<usize, ArgError>)
    ensures
        match speed_limit_value(arg@) {
            Ok(n) => r == Ok::<usize, ArgError>(n as usize),
            Err(e) => r == Err::<usize, ArgError>(e),
        },
{
    let len = arg.unicode_len();
    if len == 0 {
        return Err(ArgError::Empty);
    }
    let last = arg.get_char(len - 1);
    let factor: usize = if last == 'k' || last == 'K' {
        1024
    } else if last == 'm' || last == 'M' {
        1024 * 1024
    } else {
        1
    };
    let number = if factor == 1 { arg } else { arg.substring_char(0, len - 1) };
    assert(number@ == (if factor == 1 { arg@ } else { arg@.drop_last() }));
    match parse_usize(number) {
        None => Err(ArgError::InvalidNumber),
        Some(n) => match n.checked_mul(factor) {
            None => Err(ArgError::TooLarge),
            Some(v) => Ok(v),
        },
    }
}

} // verus!
