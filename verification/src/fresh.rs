//! Fresh identifiers and the current time.
use vstd::arithmetic::div_mod::{lemma_div_denominator, lemma_fundamental_div_mod};
use vstd::arithmetic::power::{lemma_pow_multiplies, lemma_pow_positive, pow};
use vstd::prelude::*;
use vstd::string::*;

verus! {

/// Whether 128 bits are a version 4 UUID: the version is 4 and the variant is that of RFC 9562.
pub open spec fn is_v4(id: u128) -> bool {
    &&& (id as nat / pow(2, 76) as nat) % 16 == 4
    &&& (id as nat / pow(2, 62) as nat) % 4 == 2
}

/// The lower-case hexadecimal digit for a number below sixteen.
pub open spec fn hex_digit(n: int) -> char {
    if n < 10 {
        (('0' as u32 + n) as u32) as char
    } else {
        (('a' as u32 + (n - 10)) as u32) as char
    }
}

/// The 32 hexadecimal digits of 128 bits, the most significant first.
pub open spec fn simple_form(id: u128) -> Seq<char> {
    Seq::new(32, |i: int| hex_digit((id as int / pow(16, (31 - i) as nat)) % 16))
}

/// The hexadecimal digits of 128 bits in groups of 8, 4, 4, 4 and 12.
pub open spec fn hyphenated_form(id: u128) -> Seq<char> {
    let digits = simple_form(id);
    digits.subrange(0, 8).push('-') + digits.subrange(8, 12).push('-') + digits.subrange(
        12,
        16,
    ).push('-') + digits.subrange(16, 20).push('-') + digits.subrange(20, 32)
}

/// Trusted: `uuid::Uuid::new_v4`, as 128 bits. They are random; of every outcome it is stated
/// that the version and the variant are set.
#[verifier::external_body]
fn fresh_id() -> (r: u128)
    ensures
        is_v4(r),
{
    uuid::Uuid::new_v4().as_u128()
}

/// Trusted: the `simple` form of `uuid::Uuid` displays the 32 hexadecimal digits.
#[verifier::external_body]
fn write_simple(id: u128) -> (r: String)
    ensures
        r@ == simple_form(id),
{
    uuid::Uuid::from_u128(id).simple().to_string()
}

/// Trusted: `uuid::Uuid` displays its hexadecimal digits in five groups.
#[verifier::external_body]
fn write_hyphenated(id: u128) -> (r: String)
    ensures
        r@ == hyphenated_form(id),
{
    uuid::Uuid::from_u128(id).to_string()
}

/// Trusted: the timestamp of `chrono::Utc::now`, in seconds since 1970. It depends on the clock;
/// of every outcome it is stated that it is not negative.
#[verifier::external_body]
pub(crate) fn current_time() -> (r: i64)
    ensures
        r >= 0,
{
    chrono::Utc::now().timestamp()
}

/// A prefix and a fresh identifier in its simple form.
pub fn prefixed_simple(prefix: &str) -> (r: String)
    ensures
        exists|id: u128| #[trigger] is_v4(id) && r@ == prefix@ + simple_form(id),
{
    let id = fresh_id();
    let mut text = prefix.to_owned();
    text.append(write_simple(id).as_str());
    text
}

/// A prefix and a fresh identifier in its hyphenated form.
pub fn prefixed_hyphenated(prefix: &str) -> (r: String)
    ensures
        exists|id: u128| #[trigger] is_v4(id) && r@ == prefix@ + hyphenated_form(id),
{
    let id = fresh_id();
    let mut text = prefix.to_owned();
    text.append(write_hyphenated(id).as_str());
    text
}

/// The number that hexadecimal digits stand for.
pub open spec fn hex_value(text: Seq<char>) -> int
    decreases text.len(),
{
    if text.len() == 0 {
        0
    } else {
        let c = text.last();
        16 * hex_value(text.drop_last()) + (if '0' <= c <= '9' {
            c as int - '0' as int
        } else {
            c as int - 'a' as int + 10
        })
    }
}

proof fn lemma_id_below(id: u128)
    ensures
        id < pow(16, 32),
{
    reveal(pow);
    reveal_with_fuel(pow, 33);
}

proof fn lemma_first_digits(id: u128, k: int)
    requires
        0 <= k <= 32,
    ensures
        hex_value(simple_form(id).take(k)) == id as int / pow(16, (32 - k) as nat),
    decreases k,
{
    let digits = simple_form(id);
    if k == 0 {
        lemma_id_below(id);
        assert(digits.take(0) =~= Seq::<char>::empty());
        vstd::arithmetic::div_mod::lemma_basic_div(id as int, pow(16, 32));
    } else {
        lemma_first_digits(id, k - 1);
        assert(digits.take(k).drop_last() =~= digits.take(k - 1));
        let n = (32 - k) as nat;
        let low = pow(16, n);
        lemma_pow_positive(16, n);
        assert(pow(16, (n + 1) as nat) == 16 * low) by {
            reveal(pow);
        }
        lemma_div_denominator(id as int, low, 16);
        assert(low * 16 == 16 * low) by (nonlinear_arith);
        lemma_fundamental_div_mod(id as int / low, 16);
        assert((31 - (k - 1)) as nat == n);
        let d = (id as int / low) % 16;
        assert(digits.take(k).last() == hex_digit(d));
    }
}

/// The simple form is 32 lower-case hexadecimal digits, which stand for the identifier: no two
/// identifiers have one form.
pub proof fn lemma_simple_form(id: u128, i: int)
    ensures
        simple_form(id).len() == 32,
        0 <= i < 32 ==> '0' <= simple_form(id)[i] <= '9' || 'a' <= simple_form(id)[i] <= 'f',
        hex_value(simple_form(id)) == id,
{
    lemma_first_digits(id, 32);
    assert(simple_form(id).take(32) =~= simple_form(id));
    assert(pow(16, 0) == 1) by {
        reveal(pow);
    }
}

/// The hyphenated form is the simple one with hyphens behind the first eight digits and behind each
/// of the next three groups of four.
pub proof fn lemma_hyphenated_form(id: u128)
    ensures
        ({
            let text = hyphenated_form(id);
            &&& text.len() == 36
            &&& text[8] == '-' && text[13] == '-' && text[18] == '-' && text[23] == '-'
            &&& text.subrange(0, 8) + text.subrange(9, 13) + text.subrange(14, 18) + text.subrange(
                19,
                23,
            ) + text.subrange(24, 36) == simple_form(id)
        }),
{
    let text = hyphenated_form(id);
    assert(text.subrange(0, 8) + text.subrange(9, 13) + text.subrange(14, 18) + text.subrange(
        19,
        23,
    ) + text.subrange(24, 36) =~= simple_form(id));
}

/// A version 4 identifier shows its version and its variant.
pub proof fn lemma_version_shown(id: u128)
    requires
        is_v4(id),
    ensures
        simple_form(id)[12] == '4',
        simple_form(id)[16] == '8' || simple_form(id)[16] == '9' || simple_form(id)[16] == 'a'
            || simple_form(id)[16] == 'b',
{
    assert(pow(2, 4) == 16) by {
        reveal(pow);
        reveal_with_fuel(pow, 5);
    }
    lemma_pow_multiplies(2, 4, 19);
    lemma_pow_multiplies(2, 4, 15);
    assert(pow(16, 19) == pow(2, 76));
    assert(pow(16, 15) == pow(2, 60));
    lemma_pow_positive(2, 76);
    lemma_pow_positive(2, 60);
    lemma_pow_positive(2, 62);
    let low = pow(2, 60);
    assert(pow(2, 62) == low * 4) by {
        vstd::arithmetic::power::lemma_pow_adds(2, 60, 2);
        reveal(pow);
        reveal_with_fuel(pow, 3);
    }
    lemma_div_denominator(id as int, low, 4);
    let q = id as int / low;
    assert((q / 4) % 4 == 2);
    assert(8 <= q % 16 <= 11);
    assert(simple_form(id)[12] == hex_digit((id as int / pow(16, 19)) % 16));
    assert(simple_form(id)[16] == hex_digit((id as int / pow(16, 15)) % 16));
}

} // verus!
