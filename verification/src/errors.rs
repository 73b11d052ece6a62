//! Diagnostic formatting: renders a lexical error as the text
//! `[line <N>] Error <context>: <message>`. Formatting only computes the
//! message; printing it is the caller's business.

use vstd::prelude::*;

verus! {

/// The decimal digit character for `d` (`0` through `9`).
pub open spec fn dec_digit_char(d: int) -> char {
    if d == 0 {
        '0'
    } else if d == 1 {
        '1'
    } else if d == 2 {
        '2'
    } else if d == 3 {
        '3'
    } else if d == 4 {
        '4'
    } else if d == 5 {
        '5'
    } else if d == 6 {
        '6'
    } else if d == 7 {
        '7'
    } else if d == 8 {
        '8'
    } else {
        '9'
    }
}

/// The usual decimal rendering of a non-negative integer: most significant
/// digit first, no leading zeros (except for `0` itself).
pub open spec fn dec_digits(n: int) -> Seq<char>
    recommends
        n >= 0,
    decreases n,
{
    if n < 10 {
        seq![dec_digit_char(n % 10)]
    } else {
        dec_digits(n / 10).push(dec_digit_char(n % 10))
    }
}

/// Appends the decimal rendering of `n` to `out`.
fn push_dec_digits(n: u32, out: &mut Vec<char>)
    ensures
        final(out)@ == old(out)@ + dec_digits(n as int),
    decreases n,
{
    if n >= 10 {
        push_dec_digits(n / 10, out);
    }
    let d = n % 10;
    let c = if d == 0 {
        '0'
    } else if d == 1 {
        '1'
    } else if d == 2 {
        '2'
    } else if d == 3 {
        '3'
    } else if d == 4 {
        '4'
    } else if d == 5 {
        '5'
    } else if d == 6 {
        '6'
    } else if d == 7 {
        '7'
    } else if d == 8 {
        '8'
    } else {
        '9'
    };
    assert(c == dec_digit_char(n as int % 10));
    out.push(c);
    assert(final(out)@ =~= old(out)@ + dec_digits(n as int));
}

/// Relies on `String::from_iter` (via `Iterator::collect`): the collected
/// string holds exactly the characters of the slice, in order.
#[verifier::external_body]
pub fn chars_to_string(v: &[char]) -> (r: String)
    ensures
        r@ == v@,
{
    v.iter().collect()
}

/// The full diagnostic line `[line <N>] Error <stub>: <msg>`. The `stub`
/// slot is reserved for a location qualifier and is empty in current usage.
pub open spec fn spec_report(line: int, stub: Seq<char>, msg: Seq<char>) -> Seq<char> {
    "[line "@ + dec_digits(line) + "] Error "@ + stub + ": "@ + msg
}

/// Formats a diagnostic with an explicit context `stub`.
fn report(line: u32, stub: String, msg: String) -> (r: String)
    ensures
        r@ == spec_report(line as int, stub@, msg@),
{
    let mut r = String::new();
    r.append("[line ");
    let mut digits: Vec<char> = Vec::new();
    push_dec_digits(line, &mut digits);
    let ds = chars_to_string(digits.as_slice());
    r.append(ds.as_str());
    r.append("] Error ");
    r.append(stub.as_str());
    r.append(": ");
    r.append(msg.as_str());
    assert(r@ =~= spec_report(line as int, stub@, msg@));
    r
}

/// Formats a lexical error for display, with an empty context slot:
/// `[line <N>] Error : <msg>`.
pub fn error(line: u32, msg: String) -> (r: String)
    ensures
        r@ == spec_report(line as int, Seq::<char>::empty(), msg@),
{
    report(line, String::new(), msg)
}

} // verus!
