//! Identifiers of paths: the standard hasher's value for the path's text,
//! written in decimal.

use std::collections::hash_map::DefaultHasher;
use std::hash::Hash;
use std::hash::Hasher;
use vstd::prelude::*;
use vstd::std_specs::hash::DefaultHasherAdditionalSpecFns;

verus! {

/// What a standard hasher has been fed once a text is hashed into it, given
/// what it had been fed before.
pub uninterp spec fn text_feed(written: Seq<Seq<u8>>, text: Seq<char>) -> Seq<Seq<u8>>;

/// Hashes `text` into `hasher` with `Hash::hash` of `str`. What the hasher
/// holds afterwards depends on what it held and on the text alone; which
/// bytes the text contributes is left to the standard library.
#[verifier::external_body]
fn feed_text(text: &str, hasher: &mut DefaultHasher)
    ensures
        final(hasher)@ == text_feed(old(hasher)@, text@),
{
    text.hash(hasher);
}

/// The character of one decimal digit.
pub open spec fn digit_char(digit: nat) -> char
    recommends
        digit < 10,
{
    (digit + 48) as u8 as char
}

/// A number in decimal, most significant digit first, without leading zeros.
pub open spec fn decimal_digits(n: nat) -> Seq<char>
    decreases n,
{
    if n < 10 {
        seq![digit_char(n)]
    } else {
        decimal_digits(n / 10).push(digit_char(n % 10))
    }
}

/// The value that a fresh standard hasher gives for a path's text.
pub open spec fn path_hash(path: Seq<char>) -> u64 {
    DefaultHasher::spec_finish(text_feed(Seq::empty(), path))
}

/// The identifier of a path: its hash value in decimal.
pub open spec fn identifier_of(path: Seq<char>) -> Seq<char> {
    decimal_digits(path_hash(path) as nat)
}

/// Whether `c` is one of the characters `0` to `9`.
pub open spec fn is_digit(c: char) -> bool {
    '0' <= c <= '9'
}

/// A decimal numeral is never empty, holds digits only, and starts with `0`
/// only where the number is zero.
pub proof fn lemma_decimal_digits_shape(n: nat)
    ensures
        decimal_digits(n).len() >= 1,
        forall|i: int| 0 <= i < decimal_digits(n).len() ==> is_digit(#[trigger] decimal_digits(n)[i]),
        decimal_digits(n)[0] == '0' <==> n == 0,
    decreases n,
{
    if n >= 10 {
        lemma_decimal_digits_shape(n / 10);
    }
}

/// The value that a decimal numeral stands for.
pub open spec fn decimal_value(digits: Seq<char>) -> nat
    decreases digits.len(),
{
    if digits.len() == 0 {
        0
    } else {
        (decimal_value(digits.drop_last()) * 10 + (digits.last() as nat - 48)) as nat
    }
}

/// Reading back the numeral of a number gives the number, so different
/// numbers have different numerals.
pub proof fn lemma_decimal_round_trip(n: nat)
    ensures
        decimal_value(decimal_digits(n)) == n,
    decreases n,
{
    if n < 10 {
        let d = decimal_digits(n);
        assert(d.drop_last() =~= Seq::<char>::empty());
        assert(decimal_value(d.drop_last()) == 0);
    } else {
        lemma_decimal_round_trip(n / 10);
        let d = decimal_digits(n);
        assert(d.drop_last() =~= decimal_digits(n / 10));
    }
}

/// Two paths share an identifier only where they share the hash value: the
/// decimal writing adds no collision of its own.
pub proof fn lemma_identifier_tells_hash(first: Seq<char>, second: Seq<char>)
    ensures
        identifier_of(first) == identifier_of(second) <==> path_hash(first) == path_hash(second),
{
    lemma_decimal_round_trip(path_hash(first) as nat);
    lemma_decimal_round_trip(path_hash(second) as nat);
}

/// The same path always has the same identifier; every identifier is a
/// decimal numeral of at least one digit.
pub proof fn lemma_identifier_deterministic(first: Seq<char>, second: Seq<char>)
    requires
        first == second,
    ensures
        identifier_of(first) == identifier_of(second),
        identifier_of(first).len() >= 1,
        forall|i: int| 0 <= i < identifier_of(first).len() ==> is_digit(#[trigger] identifier_of(first)[i]),
{
    lemma_decimal_digits_shape(path_hash(first) as nat);
}

/// Appends the decimal numeral of `n` to `out`.
fn push_decimal(out: &mut String, n: u64)
    ensures
        final(out)@ == old(out)@ + decimal_digits(n as nat),
    decreases n,
{
    if n >= 10 {
        push_decimal(out, n / 10);
    }
    let digit: u8 = (n % 10) as u8;
    out.push((digit + 48) as char);
    assert(final(out)@ =~= old(out)@ + decimal_digits(n as nat));
}

/// Writes `n` in decimal.
pub fn decimal_string(n: u64) -> (text: String)
    ensures
        text@ == decimal_digits(n as nat),
{
    let mut text = String::new();
    push_decimal(&mut text, n);
    assert(text@ =~= decimal_digits(n as nat));
    text
}

/// The hash value of a path's text under a fresh standard hasher.
pub fn hash_value(path: &str) -> (value: u64)
    ensures
        value == path_hash(path@),
{
    let mut hasher = DefaultHasher::new();
    feed_text(path, &mut hasher);
    hasher.finish()
}

/// The identifier of `path`: a stable key, equal for equal paths. Different
/// paths may share one.
pub fn hash_path(path: String) -> (identifier: String)
    ensures
        identifier@ == identifier_of(path@),
{
    decimal_string(hash_value(path.as_str()))
}

} // verus!
