//! What the texts that are written look like, and which characters count as what.

use crate::text;
use vstd::prelude::*;

verus! {

/// Only the letters and digits of ASCII are digits, in capitals or not: the digits are worth
/// their value, the letters ten and more in the order of the alphabet.
pub proof fn law_digits_are_ascii(c: char, d: nat)
    ensures
        d < 10 ==> text::digit_value(('0' as nat + d) as char) == d,
        d < 26 ==> text::digit_value(('a' as nat + d) as char) == 10 + d,
        d < 26 ==> text::digit_value(('A' as nat + d) as char) == 10 + d,
        !('0' <= c <= '9') && !('a' <= c <= 'z') && !('A' <= c <= 'Z') ==> text::digit_value(c)
            >= 36,
{
}

/// One more digit behind a number makes it the radix times as much and adds the digit.
pub proof fn law_one_more_digit(s: Seq<char>, c: char, radix: nat)
    ensures
        text::number_value(Seq::empty(), radix) == 0,
        text::number_value(s.push(c), radix) == text::number_value(s, radix) * radix
            + text::digit_value(c),
{
    assert(s.push(c).drop_last() =~= s);
}

/// Hexadecimal numbers are written in the digits and the first six letters, in capitals or not,
/// in as many characters as were asked for.
pub proof fn law_hex_is_written_in_letters(v: nat, width: nat, upper: bool, i: int)
    requires
        0 <= i < width,
    ensures
        text::hex_text(v, width, upper).len() == width,
        '0' <= text::hex_text(v, width, upper)[i] <= '9' || if upper {
            'A' <= text::hex_text(v, width, upper)[i] <= 'F'
        } else {
            'a' <= text::hex_text(v, width, upper)[i] <= 'f'
        },
    decreases width,
{
    text::lemma_hex_len(v, width, upper);
    text::lemma_hex_len(v / 16, (width - 1) as nat, upper);
    if i < width - 1 {
        law_hex_is_written_in_letters(v / 16, (width - 1) as nat, upper, i);
    }
}

/// Decimal numbers are written in the digits, and begin with a zero only where they are zero.
pub proof fn law_decimal_is_written_in_digits(n: nat)
    ensures
        text::decimal_text(n).len() > 0,
        forall|i: int|
            0 <= i < text::decimal_text(n).len() ==> '0' <= #[trigger] text::decimal_text(n)[i]
                <= '9',
        text::decimal_text(n)[0] == '0' ==> n == 0,
        text::number_value(text::decimal_text(n), 10) == n,
    decreases n,
{
    if n >= 10 {
        law_decimal_is_written_in_digits(n / 10);
        law_one_more_digit(text::decimal_text(n / 10), text::hex_char(n % 10, false), 10);
    } else {
        law_one_more_digit(Seq::empty(), text::hex_char(n, false), 10);
        assert(text::decimal_text(n) =~= Seq::empty().push(text::hex_char(n, false)));
    }
}

/// A negative number is written as a minus sign and the number without it; others have no sign.
pub proof fn law_sign_is_written(n: int)
    ensures
        n < 0 ==> text::signed_text(n)[0] == '-' && text::number_value(
            text::signed_text(n).skip(1),
            10,
        ) == -n,
        n >= 0 ==> text::signed_text(n)[0] != '-' && text::number_value(text::signed_text(n), 10)
            == n,
{
    if n < 0 {
        law_decimal_is_written_in_digits((-n) as nat);
        assert(text::signed_text(n).skip(1) =~= text::decimal_text((-n) as nat));
    } else {
        law_decimal_is_written_in_digits(n as nat);
    }
}

/// A text that is filled up begins with the text, ends in spaces, and is as long as was asked
/// for, or as the text where that is longer.
pub proof fn law_filled_up_text(s: Seq<char>, width: nat)
    ensures
        ({
            let filled = text::padded(s, width);
            &&& filled.len() == if s.len() < width {
                width
            } else {
                s.len()
            }
            &&& filled.take(s.len() as int) == s
            &&& forall|i: int| s.len() <= i < filled.len() ==> #[trigger] filled[i] == ' '
        }),
{
    assert(text::padded(s, width).take(s.len() as int) =~= s);
}

/// Parts are joined in order, with the separator between neighbours and nowhere else: nothing
/// gives nothing, one part is itself, and two rows of parts are joined like two parts.
pub proof fn law_joined_parts(a: Seq<Seq<char>>, b: Seq<Seq<char>>, part: Seq<char>, sep: Seq<char>)
    ensures
        text::joined(Seq::empty(), sep) == Seq::<char>::empty(),
        text::joined(seq![part], sep) == part,
        a.len() > 0 && b.len() > 0 ==> text::joined(a + b, sep) == text::joined(a, sep) + sep
            + text::joined(b, sep),
    decreases b.len(),
{
    if a.len() > 0 && b.len() > 0 {
        assert((a + b).drop_last() =~= a + b.drop_last());
        assert((a + b).last() == b.last());
        if b.len() == 1 {
            assert(a + b.drop_last() =~= a);
        } else {
            law_joined_parts(a, b.drop_last(), part, sep);
            let x = text::joined(a, sep);
            let y = text::joined(b.drop_last(), sep);
            assert(x + sep + y + sep + b.last() =~= x + sep + (y + sep + b.last()));
        }
    }
}

/// A fragment stands in a text exactly where the text is something, the fragment, and something.
pub proof fn law_fragment_is_in_the_middle(before: Seq<char>, part: Seq<char>, after: Seq<char>)
    ensures
        text::has_fragment(before + part + after, part),
        forall|text: Seq<char>| #[trigger]
            text::has_fragment(text, part) ==> exists|x: Seq<char>, y: Seq<char>|
                text == #[trigger] (x + part + y),
{
    let whole = before + part + after;
    let n = before.len() as int;
    assert(whole.subrange(n, n + part.len()) =~= part);
    assert forall|text: Seq<char>| #[trigger] text::has_fragment(text, part) implies exists|
        x: Seq<char>,
        y: Seq<char>,
    | text == #[trigger] (x + part + y) by {
        let at = choose|at: int|
            0 <= at <= text.len() - part.len() && #[trigger] text.subrange(at, at + part.len())
                == part;
        let x = text.take(at);
        let y = text.skip(at + part.len());
        assert(text =~= x + text.subrange(at, at + part.len()) + y);
        assert(text == x + part + y);
    }
}

/// A number is too large, or has a character that is no digit, by what comes first: a fault
/// stays what it is whatever follows, and where there is none yet, the next character decides.
pub proof fn law_first_fault_decides(s: Seq<char>, c: char, radix: nat, max: nat)
    requires
        radix >= 1,
    ensures
        text::digits_number(Seq::empty(), radix, max) == Err::<nat, text::DigitsError>(
            text::DigitsError::Empty,
        ),
        ({
            let before = text::digits_number(s, radix, max);
            let now = text::digits_number(s.push(c), radix, max);
            if s.len() > 0 && before is Err {
                now == before
            } else if text::digit_value(c) >= radix {
                now == Err::<nat, text::DigitsError>(text::DigitsError::InvalidDigit)
            } else if text::number_value(s, radix) * radix + text::digit_value(c) > max {
                now == Err::<nat, text::DigitsError>(text::DigitsError::TooLarge)
            } else {
                now == Ok::<nat, text::DigitsError>(
                    text::number_value(s, radix) * radix + text::digit_value(c),
                )
            }
        }),
{
    law_one_more_digit(s, c, radix);
    lemma_fault_before(s, c, radix, max, 0);
    if s.len() == 0 {
        assert(s =~= Seq::empty());
    }
}

proof fn lemma_fault_before(s: Seq<char>, c: char, radix: nat, max: nat, at: int)
    requires
        0 <= at <= s.len(),
    ensures
        text::first_fault(s.push(c), radix, max, at) == match text::first_fault(
            s,
            radix,
            max,
            at,
        ) {
            Some(e) => Some(e),
            None => if text::digit_value(c) >= radix {
                Some(text::DigitsError::InvalidDigit)
            } else if text::number_value(s.push(c), radix) > max {
                Some(text::DigitsError::TooLarge)
            } else {
                None
            },
        },
    decreases s.len() - at,
{
    let long = s.push(c);
    if at < s.len() {
        assert(long.take(at + 1) =~= s.take(at + 1));
        lemma_fault_before(s, c, radix, max, at + 1);
    } else {
        assert(long.take(at + 1) =~= long);
        assert(text::first_fault(long, radix, max, at + 1) is None);
    }
}

/// A text begins with a part exactly if it is the part and something behind it.
pub proof fn law_beginning_is_in_front(text: Seq<char>, part: Seq<char>, rest: Seq<char>)
    ensures
        text::begins_with(part + rest, part),
        text::begins_with(text, part) ==> text == part + text.skip(part.len() as int),
{
    assert((part + rest).take(part.len() as int) =~= part);
    if text::begins_with(text, part) {
        assert(text =~= text.take(part.len() as int) + text.skip(part.len() as int));
    }
}

} // verus!
