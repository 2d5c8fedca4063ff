//! Text helpers: decimal numbers, first fields, and words.

use vstd::prelude::*;
use vstd::string::*;
use vstd::utf8::*;

verus! {

/// `String::push` of the standard library: the character is appended to the end.
pub assume_specification[ String::push ](s: &mut String, c: char)
    ensures
        final(s)@ == old(s)@.push(c),
;

/// The character of a decimal digit.
pub open spec fn digit_char(digit: nat) -> char {
    (48 + digit) as char
}

/// The decimal digits of a number, most significant first and without leading
/// zeros.
pub open spec fn decimal(n: nat) -> Seq<char>
    decreases n,
{
    if n < 10 {
        seq![digit_char(n)]
    } else {
        decimal(n / 10).push(digit_char(n % 10))
    }
}

/// The decimal digits of a number, after a minus sign if it is negative.
pub open spec fn signed_decimal(n: int) -> Seq<char> {
    if n < 0 {
        seq!['-'] + decimal((-n) as nat)
    } else {
        decimal(n as nat)
    }
}

/// The number that a string of decimal digits denotes.
pub open spec fn decimal_value(digits: Seq<char>) -> nat
    decreases digits.len(),
{
    if digits.len() == 0 {
        0
    } else {
        10 * decimal_value(digits.drop_last()) + (digits.last() as nat - 48) as nat
    }
}

/// Whether a character is an ASCII digit.
pub open spec fn is_digit(c: char) -> bool {
    '0' <= c <= '9'
}

/// The decimal digits of a number denote that number: what is written can be
/// read back, and two numbers are never written alike.
pub proof fn decimal_reads_back(n: nat)
    ensures
        decimal_value(decimal(n)) == n,
        decimal(n).len() > 0,
        forall|i: int| 0 <= i < decimal(n).len() ==> is_digit(#[trigger] decimal(n)[i]),
    decreases n,
{
    if n < 10 {
        assert(decimal(n).drop_last() =~= Seq::empty());
        reveal_with_fuel(decimal_value, 2);
    } else {
        decimal_reads_back(n / 10);
        assert(decimal(n).drop_last() =~= decimal(n / 10));
    }
}

/// Appends a number in decimal.
pub fn push_decimal(out: &mut String, n: u128)
    ensures
        final(out)@ == old(out)@ + decimal(n as nat),
    decreases n,
{
    let digit: u8 = (n % 10) as u8;
    if n >= 10 {
        push_decimal(out, n / 10);
    }
    out.push((48 + digit) as char);
}

/// Appends a signed number in decimal.
pub fn push_signed_decimal(out: &mut String, n: i64)
    ensures
        final(out)@ == old(out)@ + signed_decimal(n as int),
{
    if n < 0 {
        out.push('-');
        let magnitude: i128 = -(n as i128);
        push_decimal(out, magnitude as u128);
    } else {
        push_decimal(out, n as u128);
    }
}

/// The elements before the first separator, or all of them if there is none.
pub open spec fn before_first<A>(s: Seq<A>, separator: A) -> Seq<A>
    decreases s.len(),
{
    if s.len() == 0 || s[0] == separator {
        Seq::empty()
    } else {
        seq![s[0]] + before_first(s.drop_first(), separator)
    }
}

/// A prefix that holds no separator, and that the separator or the end follows,
/// is what stands before the first separator.
pub proof fn lemma_before_first<A>(s: Seq<A>, separator: A, end: int)
    requires
        0 <= end <= s.len(),
        forall|i: int| 0 <= i < end ==> s[i] != separator,
        end < s.len() ==> s[end] == separator,
    ensures
        before_first(s, separator) == s.take(end),
    decreases s.len(),
{
    if end == 0 {
        assert(s.take(0) =~= Seq::empty());
    } else {
        assert forall|i: int| 0 <= i < end - 1 implies s.drop_first()[i] != separator by {
            assert(s[i + 1] != separator);
        }
        lemma_before_first(s.drop_first(), separator, end - 1);
        assert(seq![s[0]] + s.drop_first().take(end - 1) =~= s.take(end));
    }
}

/// What stands before the first separator is a prefix that does not hold it.
pub proof fn lemma_before_first_prefix<A>(s: Seq<A>, separator: A)
    ensures
        before_first(s, separator).len() <= s.len(),
        before_first(s, separator) == s.take(before_first(s, separator).len() as int),
        !before_first(s, separator).contains(separator),
        before_first(s, separator).len() < s.len() ==> s[before_first(s, separator).len() as int]
            == separator,
    decreases s.len(),
{
    if s.len() == 0 || s[0] == separator {
        assert(s.take(0) =~= Seq::empty());
    } else {
        let rest = s.drop_first();
        let tail = before_first(rest, separator);
        lemma_before_first_prefix(rest, separator);
        assert(before_first(s, separator) =~= s.take(tail.len() as int + 1));
        assert forall|i: int| 0 <= i < tail.len() + 1 implies s[i] != separator by {
            if i > 0 {
                assert(tail[i - 1] == rest[i - 1]);
                assert(tail.contains(tail[i - 1]) );
            }
        }
    }
}

/// Whether a character has the Unicode property `White_Space`.
pub open spec fn is_white(c: char) -> bool {
    ||| '\u{9}' <= c <= '\u{d}'
    ||| c == '\u{20}'
    ||| c == '\u{85}'
    ||| c == '\u{a0}'
    ||| c == '\u{1680}'
    ||| '\u{2000}' <= c <= '\u{200a}'
    ||| c == '\u{2028}'
    ||| c == '\u{2029}'
    ||| c == '\u{202f}'
    ||| c == '\u{205f}'
    ||| c == '\u{3000}'
}

/// The characters before the first white-space character.
pub open spec fn first_word(s: Seq<char>) -> Seq<char>
    decreases s.len(),
{
    if s.len() == 0 || is_white(s[0]) {
        Seq::empty()
    } else {
        seq![s[0]] + first_word(s.drop_first())
    }
}

/// The maximal runs of characters that are not white space, in order.
pub open spec fn words(s: Seq<char>) -> Seq<Seq<char>>
    decreases s.len(),
{
    if s.len() == 0 {
        Seq::empty()
    } else if is_white(s[0]) {
        words(s.drop_first())
    } else {
        proof {
            lemma_first_word_has_no_white(s);
        }
        seq![first_word(s)] + words(s.skip(first_word(s).len() as int))
    }
}

/// White space in front of a text adds no word.
pub proof fn lemma_words_skip_white(s: Seq<char>, end: int)
    requires
        0 <= end <= s.len(),
        forall|i: int| 0 <= i < end ==> is_white(#[trigger] s[i]),
    ensures
        words(s) == words(s.skip(end)),
    decreases end,
{
    if end == 0 {
        assert(s.skip(0) =~= s);
    } else {
        assert(is_white(s[0]));
        assert forall|i: int| 0 <= i < end - 1 implies is_white(#[trigger] s.drop_first()[i]) by {
            assert(is_white(s[i + 1]));
        }
        lemma_words_skip_white(s.drop_first(), end - 1);
        assert(s.drop_first().skip(end - 1) =~= s.skip(end));
    }
}

/// A prefix without white space, which white space or the end follows, is the
/// first word.
pub proof fn lemma_first_word(s: Seq<char>, end: int)
    requires
        0 <= end <= s.len(),
        forall|i: int| 0 <= i < end ==> !is_white(#[trigger] s[i]),
        end < s.len() ==> is_white(s[end]),
    ensures
        first_word(s) == s.take(end),
    decreases end,
{
    if end == 0 {
        assert(s.take(0) =~= Seq::empty());
    } else {
        assert(!is_white(s[0]));
        assert forall|i: int| 0 <= i < end - 1 implies !is_white(#[trigger] s.drop_first()[i]) by {
            assert(!is_white(s[i + 1]));
        }
        lemma_first_word(s.drop_first(), end - 1);
        assert(seq![s[0]] + s.drop_first().take(end - 1) =~= s.take(end));
    }
}

/// No word holds white space, and none is empty.
pub proof fn lemma_words_have_no_white(s: Seq<char>)
    ensures
        forall|w: int, i: int|
            0 <= w < words(s).len() && 0 <= i < words(s)[w].len() ==> !is_white(
                #[trigger] words(s)[w][i],
            ),
        forall|w: int| 0 <= w < words(s).len() ==> (#[trigger] words(s)[w]).len() > 0,
    decreases s.len(),
{
    if s.len() == 0 {
        assert(words(s).len() == 0);
    } else if is_white(s[0]) {
        lemma_words_have_no_white(s.drop_first());
        assert(words(s) == words(s.drop_first()));
    } else {
        lemma_first_word_has_no_white(s);
        let rest = s.skip(first_word(s).len() as int);
        lemma_words_have_no_white(rest);
        assert forall|w: int, i: int|
            0 <= w < words(s).len() && 0 <= i < words(s)[w].len() implies !is_white(
            #[trigger] words(s)[w][i],
        ) by {
            if w > 0 {
                assert(words(s)[w] == words(rest)[w - 1]);
                assert(!is_white(words(rest)[w - 1][i]));
            }
        }
        assert forall|w: int| 0 <= w < words(s).len() implies (#[trigger] words(s)[w]).len() > 0 by {
            if w > 0 {
                assert(words(s)[w] == words(rest)[w - 1]);
            }
        }
    }
}

/// The first word holds no white space and is no longer than the text.
pub proof fn lemma_first_word_has_no_white(s: Seq<char>)
    ensures
        first_word(s).len() <= s.len(),
        forall|i: int| 0 <= i < first_word(s).len() ==> !is_white(#[trigger] first_word(s)[i]),
    decreases s.len(),
{
    if s.len() > 0 && !is_white(s[0]) {
        lemma_first_word_has_no_white(s.drop_first());
        assert forall|i: int| 0 <= i < first_word(s).len() implies !is_white(
            #[trigger] first_word(s)[i],
        ) by {
            if i > 0 {
                assert(first_word(s)[i] == first_word(s.drop_first())[i - 1]);
            }
        }
    }
}

/// Whether a character is white space.
pub fn is_whitespace(c: char) -> (white: bool)
    ensures
        white == is_white(c),
{
    ('\u{9}' <= c && c <= '\u{d}') || c == '\u{20}' || c == '\u{85}' || c == '\u{a0}'
        || c == '\u{1680}' || ('\u{2000}' <= c && c <= '\u{200a}') || c == '\u{2028}'
        || c == '\u{2029}' || c == '\u{202f}' || c == '\u{205f}' || c == '\u{3000}'
}

/// Whether two texts are the same.
pub fn same_text(a: &str, b: &str) -> (same: bool)
    ensures
        same == (a@ == b@),
{
    let left = a.as_bytes();
    let right = b.as_bytes();
    proof {
        encode_utf8_decode_utf8(a@);
        encode_utf8_decode_utf8(b@);
    }
    if left.len() != right.len() {
        return false;
    }
    let mut i: usize = 0;
    while i < left.len()
        invariant
            i <= left.len() == right.len(),
            left@ == encode_utf8(a@),
            right@ == encode_utf8(b@),
            forall|j: int| 0 <= j < i ==> left@[j] == right@[j],
        decreases left.len() - i,
    {
        if left[i] != right[i] {
            return false;
        }
        i += 1;
    }
    proof {
        assert(left@ =~= right@);
    }
    true
}

/// The characters of a text.
pub fn chars_of(s: &str) -> (chars: Vec<char>)
    ensures
        chars@ == s@,
{
    let mut chars: Vec<char> = Vec::new();
    for c in it: s.chars()
        invariant
            it.seq() == s@,
            chars@ == s@.take(it.index() as int),
    {
        chars.push(c);
    }
    chars
}

/// The end of the run of characters, from `from` on, that are white space, or
/// that are not.
pub fn run_end(chars: &Vec<char>, from: usize, white: bool) -> (end: usize)
    requires
        from <= chars.len(),
    ensures
        from <= end <= chars.len(),
        forall|i: int| from <= i < end ==> is_white(#[trigger] chars[i]) == white,
        end < chars.len() ==> is_white(chars[end as int]) != white,
{
    let mut end: usize = from;
    while end < chars.len() && is_whitespace(chars[end]) == white
        invariant
            from <= end <= chars.len(),
            forall|i: int| from <= i < end ==> is_white(#[trigger] chars[i]) == white,
        decreases chars.len() - end,
    {
        end += 1;
    }
    end
}

/// Whether a text is the decimal numeral of a number: nothing but digits, the
/// first of which is zero only if it is the only one, and which denote the
/// number.
pub open spec fn is_numeral_of(text: Seq<char>, n: int) -> bool {
    &&& text.len() > 0
    &&& forall|i: int| 0 <= i < text.len() ==> is_digit(#[trigger] text[i])
    &&& text.len() > 1 ==> text[0] != '0'
    &&& decimal_value(text) == n
}

/// Whether a text is the decimal numeral of a number that may be negative: a
/// minus sign stands in front of the numeral of a negative number, and nothing in
/// front of any other.
pub open spec fn is_signed_numeral_of(text: Seq<char>, n: int) -> bool {
    if text.len() > 0 && text[0] == '-' {
        n < 0 && is_numeral_of(text.drop_first(), -n)
    } else {
        is_numeral_of(text, n)
    }
}

/// What is written of a number is its numeral.
pub proof fn decimal_is_a_numeral(n: nat)
    ensures
        is_numeral_of(decimal(n), n as int),
    decreases n,
{
    decimal_reads_back(n);
    if n >= 10 {
        decimal_is_a_numeral(n / 10);
        if n / 10 < 10 {
            assert(decimal(n / 10) == seq![digit_char(n / 10)]);
            assert(decimal(n)[0] == digit_char(n / 10));
        } else {
            assert(decimal(n)[0] == decimal(n / 10)[0]);
            assert(decimal(n / 10).len() > 1) by {
                decimal_reads_back(n / 10 / 10);
            }
        }
    }
}

/// What is written of a signed number is its numeral, with the sign of the
/// number.
pub proof fn signed_decimal_is_a_numeral(n: int)
    ensures
        is_signed_numeral_of(signed_decimal(n), n),
{
    if n < 0 {
        decimal_is_a_numeral((-n) as nat);
        assert(signed_decimal(n).drop_first() =~= decimal((-n) as nat));
    } else {
        decimal_is_a_numeral(n as nat);
        assert(is_digit(decimal(n as nat)[0]));
    }
}

/// A numeral with more than one digit denotes at least ten.
proof fn lemma_long_numeral(text: Seq<char>)
    requires
        text.len() > 0,
        forall|i: int| 0 <= i < text.len() ==> is_digit(#[trigger] text[i]),
        text[0] != '0',
    ensures
        decimal_value(text) > 0,
        text.len() > 1 ==> decimal_value(text) >= 10,
    decreases text.len(),
{
    if text.len() > 1 {
        let front = text.drop_last();
        assert forall|i: int| 0 <= i < front.len() implies is_digit(#[trigger] front[i]) by {
            assert(front[i] == text[i]);
        }
        lemma_long_numeral(front);
    } else {
        reveal_with_fuel(decimal_value, 2);
    }
}

/// A number has one numeral: two texts that are numerals of it are the same.
pub proof fn numerals_are_unique(a: Seq<char>, b: Seq<char>, n: int)
    requires
        is_numeral_of(a, n),
        is_numeral_of(b, n),
    ensures
        a == b,
    decreases a.len(),
{
    let x = a.drop_last();
    let y = b.drop_last();
    assert(is_digit(a[a.len() - 1]) && is_digit(b[b.len() - 1]));
    assert(a.last() == b.last());
    assert forall|i: int| 0 <= i < x.len() implies is_digit(#[trigger] x[i]) by {
        assert(x[i] == a[i]);
    }
    assert forall|i: int| 0 <= i < y.len() implies is_digit(#[trigger] y[i]) by {
        assert(y[i] == b[i]);
    }
    if a.len() > 1 {
        lemma_long_numeral(a);
    }
    if b.len() > 1 {
        lemma_long_numeral(b);
    }
    if a.len() == 1 {
        assert(x =~= Seq::empty());
    }
    if b.len() == 1 {
        assert(y =~= Seq::empty());
    }
    if a.len() > 1 {
        assert(decimal_value(x) == decimal_value(y));
        assert(b.len() > 1);
        numerals_are_unique(x, y, decimal_value(x) as int);
    } else {
        assert(decimal_value(x) == 0);
        assert(b.len() == 1);
        assert(x =~= y);
    }
    assert(a =~= x.push(a.last()));
    assert(b =~= y.push(b.last()));
}

} // verus!
