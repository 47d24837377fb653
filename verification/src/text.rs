use vstd::prelude::*;

verus! {

/// The three strings one after another.
pub(crate) fn join3(a: &str, b: &str, c: &str) -> (r: String)
    ensures
        r@ == a@ + b@ + c@,
{
    let mut r = String::from_str(a);
    r.append(b);
    r.append(c);
    r
}

/// The character of a decimal digit below ten.
pub open spec fn digit_char(d: nat) -> char {
    (48 + d) as char
}

/// The decimal digits of a number, most significant first, without leading zeros.
pub open spec fn digits(n: nat) -> Seq<char>
    decreases n,
{
    if n < 10 {
        seq![digit_char(n)]
    } else {
        digits(n / 10).push(digit_char(n % 10))
    }
}

/// The decimal text of an `i32`: its digits, after a minus sign when it is negative.
pub open spec fn decimal(v: i32) -> Seq<char> {
    if v < 0 {
        seq!['-'] + digits((-v) as nat)
    } else {
        digits(v as nat)
    }
}

/// The text of an `i32` from `i32::to_string`, which writes it as its `Display`
/// implementation does: in decimal, with a minus sign before a negative number.
#[verifier::external_body]
pub(crate) fn i32_to_string(v: i32) -> (r: String)
    ensures
        r@ == decimal(v),
{
    v.to_string()
}

/// The text of a `usize` from `usize::to_string`, which writes its decimal digits.
#[verifier::external_body]
pub(crate) fn usize_to_string(v: usize) -> (r: String)
    ensures
        r@ == digits(v as nat),
{
    v.to_string()
}

} // verus!
