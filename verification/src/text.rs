//! Text helpers: comparison, prefixes, trimming, letter case and decimal digits.
use vstd::prelude::*;
use vstd::string::*;
use vstd::utf8::*;

verus! {

/// Appends one character.
///
/// Trusted: `String::push` of std, "appends the given char to the end of this String".
pub assume_specification[ std::string::String::push ](text: &mut std::string::String, c: char)
    ensures
        final(text)@ == old(text)@.push(c),
;

/// The ASCII lower-case form of a character: `A` to `Z` become `a` to `z`, the rest stays.
pub open spec fn ascii_lower(c: char) -> char {
    if 'A' <= c <= 'Z' {
        ((c as u32 + 32) as u32) as char
    } else {
        c
    }
}

/// A copy of the text in ASCII lower case.
///
/// Trusted: `str::to_ascii_lowercase` of std, which maps ASCII `A` to `Z` to `a` to `z` and
/// leaves every other character as it is.
pub assume_specification[ str::to_ascii_lowercase ](text: &str) -> (r: std::string::String)
    ensures
        r@ == text@.map_values(|c: char| ascii_lower(c)),
;

/// Whether two texts have the same characters.
pub fn same_text(a: &str, b: &str) -> (r: bool)
    ensures
        r == (a@ == b@),
{
    proof {
        encode_utf8_decode_utf8(a@);
        encode_utf8_decode_utf8(b@);
    }
    let x = a.as_bytes();
    let y = b.as_bytes();
    if x.len() != y.len() {
        return false;
    }
    let mut i: usize = 0;
    while i < x.len()
        invariant
            i <= x@.len(),
            x@.len() == y@.len(),
            x@ == encode_utf8(a@),
            y@ == encode_utf8(b@),
            forall|j: int| 0 <= j < i ==> x@[j] == y@[j],
        decreases x@.len() - i,
    {
        if x[i] != y[i] {
            return false;
        }
        i += 1;
    }
    assert(x@ =~= y@);
    true
}

/// Whether a text begins with a prefix.
pub open spec fn has_prefix(text: Seq<char>, prefix: Seq<char>) -> bool {
    prefix.len() <= text.len() && text.take(prefix.len() as int) == prefix
}

/// What follows the prefix, or `None` where the text does not begin with it.
pub fn strip_prefix<'a>(text: &'a str, prefix: &str) -> (r: Option<&'a str>)
    ensures
        match r {
            Some(rest) => has_prefix(text@, prefix@) && rest@ == text@.skip(prefix@.len() as int),
            None => !has_prefix(text@, prefix@),
        },
{
    let n = prefix.unicode_len();
    let len = text.unicode_len();
    if n <= len && same_text(text.substring_char(0, n), prefix) {
        Some(text.substring_char(n, len))
    } else {
        None
    }
}

/// The characters with the Unicode property White_Space.
pub open spec fn is_white_space(c: char) -> bool {
    ||| '\u{9}' <= c <= '\u{d}'
    ||| c == ' '
    ||| c == '\u{85}'
    ||| c == '\u{a0}'
    ||| c == '\u{1680}'
    ||| '\u{2000}' <= c <= '\u{200a}'
    ||| c == '\u{2028}'
    ||| c == '\u{2029}'
    ||| c == '\u{202f}'
    ||| c == '\u{205f}'
    ||| c == '\u{3000}'
}

fn white_space(c: char) -> (r: bool)
    ensures
        r == is_white_space(c),
{
    ('\u{9}' <= c && c <= '\u{d}') || c == ' ' || c == '\u{85}' || c == '\u{a0}' || c == '\u{1680}'
        || ('\u{2000}' <= c && c <= '\u{200a}') || c == '\u{2028}' || c == '\u{2029}'
        || c == '\u{202f}' || c == '\u{205f}' || c == '\u{3000}'
}

/// The text without the white space at its start.
pub open spec fn trimmed_start(text: Seq<char>) -> Seq<char>
    decreases text.len(),
{
    if text.len() > 0 && is_white_space(text[0]) {
        trimmed_start(text.drop_first())
    } else {
        text
    }
}

/// The text without the white space at its end.
pub open spec fn trimmed_end(text: Seq<char>) -> Seq<char>
    decreases text.len(),
{
    if text.len() > 0 && is_white_space(text.last()) {
        trimmed_end(text.drop_last())
    } else {
        text
    }
}

/// The text without the white space at either end.
pub open spec fn trimmed(text: Seq<char>) -> Seq<char> {
    trimmed_end(trimmed_start(text))
}

proof fn lemma_trimmed_start(text: Seq<char>)
    ensures
        trimmed_start(text).len() > 0 ==> !is_white_space(trimmed_start(text)[0]),
    decreases text.len(),
{
    if text.len() > 0 && is_white_space(text[0]) {
        lemma_trimmed_start(text.drop_first());
    }
}

proof fn lemma_trimmed_end(text: Seq<char>)
    ensures
        trimmed_end(text).len() > 0 ==> !is_white_space(trimmed_end(text).last())
            && trimmed_end(text)[0] == text[0],
    decreases text.len(),
{
    if text.len() > 0 && is_white_space(text.last()) {
        lemma_trimmed_end(text.drop_last());
    }
}

/// What is left of a trimmed text neither starts nor ends with white space.
pub proof fn lemma_trimmed(text: Seq<char>)
    ensures
        trimmed(text).len() > 0 ==> !is_white_space(trimmed(text)[0]) && !is_white_space(
            trimmed(text).last(),
        ),
{
    lemma_trimmed_start(text);
    lemma_trimmed_end(trimmed_start(text));
}

/// Takes the white space off both ends of a text.
pub fn trim(text: &str) -> (r: &str)
    ensures
        r@ == trimmed(text@),
{
    let len = text.unicode_len();
    let mut start: usize = 0;
    assert(text@.skip(0) =~= text@);
    while start < len && white_space(text.get_char(start))
        invariant
            start <= len,
            len == text@.len(),
            trimmed_start(text@) == trimmed_start(text@.skip(start as int)),
        decreases len - start,
    {
        assert(text@.skip(start as int).drop_first() =~= text@.skip(start + 1));
        start += 1;
    }
    assert(trimmed_start(text@) == text@.skip(start as int));
    let mut end: usize = len;
    assert(text@.subrange(start as int, len as int) =~= text@.skip(start as int));
    while end > start && white_space(text.get_char(end - 1))
        invariant
            start <= end <= len,
            len == text@.len(),
            trimmed_end(text@.skip(start as int)) == trimmed_end(text@.subrange(start as int, end as int)),
        decreases end - start,
    {
        assert(text@.subrange(start as int, end as int).drop_last() =~= text@.subrange(start as int, end - 1));
        end -= 1;
    }
    text.substring_char(start, end)
}

/// The decimal digit for a number below ten.
pub open spec fn digit(n: nat) -> char {
    (('0' as u32 + n) as u32) as char
}

/// A natural number in decimal, without leading zeros.
pub open spec fn decimal(n: nat) -> Seq<char>
    decreases n,
{
    if n < 10 {
        seq![digit(n)]
    } else {
        decimal(n / 10).push(digit(n % 10))
    }
}

/// Writes a number in decimal.
pub fn write_decimal(n: u64) -> (r: String)
    ensures
        r@ == decimal(n as nat),
    decreases n,
{
    let last = (48u8 + (n % 10) as u8) as char;
    if n < 10 {
        let mut text = String::new();
        text.push(last);
        assert(text@ =~= seq![digit(n as nat)]);
        text
    } else {
        let mut text = write_decimal(n / 10);
        text.push(last);
        text
    }
}

proof fn lemma_start_split(text: Seq<char>)
    ensures
        trimmed_start(text).len() <= text.len(),
        text.skip(text.len() - trimmed_start(text).len()) == trimmed_start(text),
        forall|i: int|
            0 <= i < text.len() - trimmed_start(text).len() ==> is_white_space(#[trigger] text[i]),
    decreases text.len(),
{
    if text.len() > 0 && is_white_space(text[0]) {
        let rest = text.drop_first();
        lemma_start_split(rest);
        let n = text.len() - trimmed_start(text).len();
        assert(text.skip(n) =~= rest.skip(n - 1));
        assert forall|i: int| 0 <= i < n implies is_white_space(#[trigger] text[i]) by {
            if i > 0 {
                assert(text[i] == rest[i - 1]);
            }
        }
    } else {
        assert(text.skip(0) =~= text);
    }
}

proof fn lemma_end_split(text: Seq<char>)
    ensures
        trimmed_end(text).len() <= text.len(),
        text.take(trimmed_end(text).len() as int) == trimmed_end(text),
        forall|i: int|
            trimmed_end(text).len() <= i < text.len() ==> is_white_space(#[trigger] text[i]),
    decreases text.len(),
{
    if text.len() > 0 && is_white_space(text.last()) {
        let rest = text.drop_last();
        lemma_end_split(rest);
        let n = trimmed_end(text).len() as int;
        assert(text.take(n) =~= rest.take(n));
        assert forall|i: int| n <= i < text.len() implies is_white_space(#[trigger] text[i]) by {
            if i < rest.len() {
                assert(text[i] == rest[i]);
            }
        }
    } else {
        assert(text.take(text.len() as int) =~= text);
    }
}

/// Whether a text is white space and nothing else.
pub open spec fn is_blank(text: Seq<char>) -> bool {
    forall|i: int| 0 <= i < text.len() ==> is_white_space(#[trigger] text[i])
}

/// Whether a text is three texts, one after the other.
pub open spec fn is_made_of(
    text: Seq<char>,
    before: Seq<char>,
    inside: Seq<char>,
    after: Seq<char>,
) -> bool {
    text == before + inside + after
}

/// White space is the 25 characters that Unicode counts as such: the controls from tab to return,
/// space, next line, the spaces of every width, and the two separators.
pub proof fn lemma_white_space(c: char)
    ensures
        is_white_space(c) <==> ({
            let code = c as int;
            9 <= code <= 13 || code == 32 || code == 133 || code == 160 || code == 5760 || 8192
                <= code <= 8202 || code == 8232 || code == 8233 || code == 8239 || code == 8287
                || code == 12288
        }),
{
}

/// Trimming takes white space off the two ends and nothing else: what it takes off is blank, and
/// what is left stands between.
pub proof fn lemma_trimmed_between(text: Seq<char>)
    ensures
        exists|before: Seq<char>, after: Seq<char>|
            is_blank(before) && is_blank(after) && #[trigger] is_made_of(
                text,
                before,
                trimmed(text),
                after,
            ),
{
    lemma_start_split(text);
    let rest = trimmed_start(text);
    lemma_end_split(rest);
    let before = text.take(text.len() - rest.len());
    let after = rest.skip(trimmed(text).len() as int);
    assert(text =~= before + trimmed(text) + after);
    assert(is_made_of(text, before, trimmed(text), after));
}

/// A text that neither starts nor ends with white space, between blanks, is what trimming leaves.
pub proof fn lemma_trimmed_is_inside(before: Seq<char>, inside: Seq<char>, after: Seq<char>)
    requires
        is_blank(before),
        is_blank(after),
        inside.len() > 0,
        !is_white_space(inside[0]),
        !is_white_space(inside.last()),
    ensures
        trimmed(before + inside + after) == inside,
{
    lemma_skip_blank(before, inside + after);
    assert(before + inside + after =~= before + (inside + after));
    assert((inside + after)[0] == inside[0]);
    lemma_drop_blank(inside, after);
}

/// Nothing is left of a blank text.
pub proof fn lemma_blank_trims_away(text: Seq<char>)
    requires
        is_blank(text),
    ensures
        trimmed(text).len() == 0,
{
    lemma_skip_blank(text, Seq::empty());
    assert(text + Seq::<char>::empty() =~= text);
}

proof fn lemma_skip_blank(before: Seq<char>, rest: Seq<char>)
    requires
        is_blank(before),
    ensures
        trimmed_start(before + rest) == trimmed_start(rest),
    decreases before.len(),
{
    if before.len() > 0 {
        assert(is_white_space(before[0]));
        let shorter = before.drop_first();
        assert((before + rest).drop_first() =~= shorter + rest);
        assert forall|i: int| 0 <= i < shorter.len() implies is_white_space(#[trigger] shorter[i]) by {
            assert(shorter[i] == before[i + 1]);
        }
        lemma_skip_blank(shorter, rest);
    } else {
        assert(before + rest =~= rest);
    }
}

proof fn lemma_drop_blank(inside: Seq<char>, after: Seq<char>)
    requires
        is_blank(after),
    ensures
        trimmed_end(inside + after) == trimmed_end(inside),
    decreases after.len(),
{
    if after.len() > 0 {
        assert(is_white_space(after[after.len() - 1]));
        let shorter = after.drop_last();
        assert((inside + after).drop_last() =~= inside + shorter);
        assert forall|i: int| 0 <= i < shorter.len() implies is_white_space(#[trigger] shorter[i]) by {
            assert(shorter[i] == after[i]);
        }
        lemma_drop_blank(inside, shorter);
    } else {
        assert(inside + after =~= inside);
    }
}

/// The ASCII letters in lower case, each with the same place in the alphabet.
pub proof fn lemma_ascii_lower(c: char)
    ensures
        'A' <= c <= 'Z' ==> 'a' <= ascii_lower(c) <= 'z' && ascii_lower(c) as int - 'a' as int
            == c as int - 'A' as int,
        !('A' <= c <= 'Z') ==> ascii_lower(c) == c,
        ascii_lower(ascii_lower(c)) == ascii_lower(c),
{
}

/// The number that decimal digits write.
pub open spec fn digits_value(text: Seq<char>) -> int
    decreases text.len(),
{
    if text.len() == 0 {
        0
    } else {
        10 * digits_value(text.drop_last()) + (text.last() as int - '0' as int)
    }
}

/// The decimal digits of a number write that number, each is a digit, and none is a leading zero.
pub proof fn lemma_decimal_value(n: nat)
    ensures
        digits_value(decimal(n)) == n,
        decimal(n).len() > 0,
        forall|i: int| 0 <= i < decimal(n).len() ==> '0' <= #[trigger] decimal(n)[i] <= '9',
        n > 0 ==> decimal(n)[0] != '0',
    decreases n,
{
    if n < 10 {
        reveal_with_fuel(digits_value, 2);
        assert(decimal(n) =~= seq![digit(n)]);
        assert(decimal(n).drop_last() =~= Seq::<char>::empty());
    } else {
        lemma_decimal_value(n / 10);
        assert(decimal(n) == decimal(n / 10).push(digit(n % 10)));
        assert(decimal(n).drop_last() =~= decimal(n / 10));
        assert forall|i: int| 0 <= i < decimal(n).len() implies '0' <= #[trigger] decimal(n)[i]
            <= '9' by {
            if i < decimal(n / 10).len() {
                assert(decimal(n)[i] == decimal(n / 10)[i]);
            }
        }
        assert(decimal(n)[0] == decimal(n / 10)[0]);
    }
}

/// Different numbers have different decimal digits.
pub proof fn lemma_decimal_injective(a: nat, b: nat)
    requires
        decimal(a) == decimal(b),
    ensures
        a == b,
{
    lemma_decimal_value(a);
    lemma_decimal_value(b);
}

} // verus!
