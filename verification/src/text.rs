//! Text: reading numbers out of strings and writing values into them.

use vstd::prelude::*;

verus! {

/// `String::push` of the standard library: the character goes to the end of the text,
/// and nothing else changes.
pub assume_specification[ String::push ](s: &mut String, c: char)
    ensures
        final(s)@ == old(s)@.push(c),
;

// ---------------------------------------------------------------------------
// Models
// ---------------------------------------------------------------------------

/// The texts of a list of strings.
pub open spec fn texts(list: Seq<String>) -> Seq<Seq<char>> {
    list.map_values(|s: String| s@)
}

/// `part` occurs somewhere in `text`, as one unbroken run of characters.
pub open spec fn has_fragment(text: Seq<char>, part: Seq<char>) -> bool {
    exists|at: int|
        0 <= at <= text.len() - part.len() && #[trigger] text.subrange(at, at + part.len()) == part
}

/// The first place, from `from` on, at which `part` stands in `text`.
pub open spec fn first_fragment(text: Seq<char>, part: Seq<char>, from: int) -> Option<int>
    decreases text.len() + 1 - from,
{
    if from < 0 || from + part.len() > text.len() {
        None
    } else if text.subrange(from, from + part.len()) == part {
        Some(from)
    } else {
        first_fragment(text, part, from + 1)
    }
}

/// The end of the run of hexadecimal digits that begins at `from`.
pub open spec fn hex_run_end(s: Seq<char>, from: int) -> int
    decreases s.len() - from,
{
    if 0 <= from < s.len() && digit_value(s[from]) < 16 {
        hex_run_end(s, from + 1)
    } else {
        from
    }
}

/// `text` begins with `part`.
pub open spec fn begins_with(text: Seq<char>, part: Seq<char>) -> bool {
    part.len() <= text.len() && text.take(part.len() as int) == part
}

/// The worth of a character as a digit; 36 for a character that is no digit in any radix.
pub open spec fn digit_value(c: char) -> nat {
    if '0' <= c <= '9' {
        (c as nat - '0' as nat) as nat
    } else if 'a' <= c <= 'z' {
        (c as nat - 'a' as nat + 10) as nat
    } else if 'A' <= c <= 'Z' {
        (c as nat - 'A' as nat + 10) as nat
    } else {
        36
    }
}

/// Every character is a digit of the radix.
pub open spec fn all_digits(s: Seq<char>, radix: nat) -> bool {
    forall|i: int| 0 <= i < s.len() ==> digit_value(#[trigger] s[i]) < radix
}

/// The number that a row of digits stands for, the most significant digit first.
pub open spec fn number_value(s: Seq<char>, radix: nat) -> nat
    decreases s.len(),
{
    if s.len() == 0 {
        0
    } else {
        number_value(s.drop_last(), radix) * radix + digit_value(s.last())
    }
}

/// What follows a leading `+`, if there is one.
pub open spec fn without_plus(s: Seq<char>) -> Seq<char> {
    if s.len() > 0 && s[0] == '+' {
        s.skip(1)
    } else {
        s
    }
}

/// An unsigned number: an optional `+`, then one or more digits and nothing else, worth at
/// most `max`.
pub open spec fn unsigned_number(s: Seq<char>, radix: nat, max: nat) -> Option<nat> {
    let digits = without_plus(s);
    if digits.len() > 0 && all_digits(digits, radix) && number_value(digits, radix) <= max {
        Some(number_value(digits, radix))
    } else {
        None
    }
}

/// Why a row of characters is not a number.
#[derive(Debug, Clone, Copy, PartialEq, Eq, Structural)]
pub enum DigitsError {
    /// There are no characters.
    Empty,
    /// A character is not a digit.
    InvalidDigit,
    /// The number is too large.
    TooLarge,
}

/// What is wrong with the first character, from `at` on, at which something is: it is no digit,
/// or the number becomes too large with it.
pub open spec fn first_fault(s: Seq<char>, radix: nat, max: nat, at: int) -> Option<DigitsError>
    decreases s.len() - at,
{
    if at < 0 || at >= s.len() {
        None
    } else if digit_value(s[at]) >= radix {
        Some(DigitsError::InvalidDigit)
    } else if number_value(s.take(at + 1), radix) > max {
        Some(DigitsError::TooLarge)
    } else {
        first_fault(s, radix, max, at + 1)
    }
}

/// A number without a sign: one or more digits and nothing else, worth at most `max`. It is read
/// from the left, and the first fault is what is wrong with it.
pub open spec fn digits_number(s: Seq<char>, radix: nat, max: nat) -> Result<nat, DigitsError> {
    if s.len() == 0 {
        Err(DigitsError::Empty)
    } else {
        match first_fault(s, radix, max, 0) {
            Some(e) => Err(e),
            None => Ok(number_value(s, radix)),
        }
    }
}

/// What is said of characters that are not a number.
pub open spec fn digits_error_text(e: DigitsError) -> Seq<char> {
    match e {
        DigitsError::Empty => "cannot parse integer from empty string"@,
        DigitsError::InvalidDigit => "invalid digit found in string"@,
        DigitsError::TooLarge => "number too large to fit in target type"@,
    }
}

impl DigitsError {
    /// What is said of the characters.
    pub fn to_string(&self) -> (s: String)
        ensures
            s@ == digits_error_text(*self),
    {
        match *self {
            DigitsError::Empty => "cannot parse integer from empty string".to_owned(),
            DigitsError::InvalidDigit => "invalid digit found in string".to_owned(),
            DigitsError::TooLarge => "number too large to fit in target type".to_owned(),
        }
    }
}

/// The digit character for a value below 16.
pub open spec fn hex_char(d: nat, upper: bool) -> char {
    if d < 10 {
        ('0' as nat + d) as char
    } else if upper {
        ('A' as nat + (d - 10)) as char
    } else {
        ('a' as nat + (d - 10)) as char
    }
}

/// The last `width` hexadecimal digits of a value, zero-padded.
pub open spec fn hex_text(v: nat, width: nat, upper: bool) -> Seq<char>
    decreases width,
{
    if width == 0 {
        Seq::empty()
    } else {
        hex_text(v / 16, (width - 1) as nat, upper).push(hex_char(v % 16, upper))
    }
}

/// The decimal digits of a value, without leading zeros.
pub open spec fn decimal_text(n: nat) -> Seq<char>
    decreases n,
{
    if n < 10 {
        seq![hex_char(n, false)]
    } else {
        decimal_text(n / 10).push(hex_char(n % 10, false))
    }
}

/// The decimal digits of a value, after a minus sign where it is negative.
pub open spec fn signed_text(n: int) -> Seq<char> {
    if n < 0 {
        seq!['-'] + decimal_text((-n) as nat)
    } else {
        decimal_text(n as nat)
    }
}

/// A text filled up with spaces on the right until it is at least `width` characters long.
pub open spec fn padded(s: Seq<char>, width: nat) -> Seq<char> {
    if s.len() < width {
        s + Seq::new((width - s.len()) as nat, |i: int| ' ')
    } else {
        s
    }
}

/// The parts one after another, with the separator between neighbours.
pub open spec fn joined(parts: Seq<Seq<char>>, sep: Seq<char>) -> Seq<char>
    decreases parts.len(),
{
    if parts.len() == 0 {
        Seq::empty()
    } else if parts.len() == 1 {
        parts[0]
    } else {
        joined(parts.drop_last(), sep) + sep + parts.last()
    }
}

/// A byte as it is shown in a dump: itself where it is printable ASCII, else a dot.
pub open spec fn printable(b: u8) -> char {
    if 0x20 <= b < 0x7f {
        b as char
    } else {
        '.'
    }
}

/// The characters with the Unicode property White_Space.
pub open spec fn white_space(c: char) -> bool {
    let u = c as nat;
    ||| 0x9 <= u <= 0xd
    ||| u == 0x20
    ||| u == 0x85
    ||| u == 0xa0
    ||| u == 0x1680
    ||| 0x2000 <= u <= 0x200a
    ||| u == 0x2028
    ||| u == 0x2029
    ||| u == 0x202f
    ||| u == 0x205f
    ||| u == 0x3000
}

/// An ASCII lower-case letter as its capital; any other character as it is.
pub open spec fn ascii_upper(c: char) -> char {
    if 'a' <= c <= 'z' {
        (c as nat - 32) as char
    } else {
        c
    }
}

// ---------------------------------------------------------------------------
// Looking into texts
// ---------------------------------------------------------------------------

/// The characters of a text.
pub fn chars_of(s: &str) -> (v: Vec<char>)
    ensures
        v@ == s@,
{
    let mut v: Vec<char> = Vec::new();
    for c in it: s.chars()
        invariant
            v@ == it.seq().take(it.index()),
    {
        v.push(c);
    }
    v
}

/// Whether two texts are the same.
pub fn same_text(a: &str, b: &str) -> (same: bool)
    ensures
        same == (a@ == b@),
{
    let left = a.to_owned();
    let right = b.to_owned();
    left == right
}

/// Whether the characters of `part` stand in `text` at the given place.
fn matches_at(text: &Vec<char>, part: &Vec<char>, at: usize) -> (found: bool)
    requires
        at + part@.len() <= text@.len(),
    ensures
        found == (text@.subrange(at as int, at + part@.len()) == part@),
{
    let mut i: usize = 0;
    while i < part.len()
        invariant
            i <= part@.len(),
            at + part.len() <= text.len(),
            forall|j: int| 0 <= j < i ==> text@[at + j] == #[trigger] part@[j],
        decreases part@.len() - i,
    {
        if text[at + i] != part[i] {
            assert(text@.subrange(at as int, at + part@.len())[i as int] != part@[i as int]);
            return false;
        }
        i += 1;
    }
    assert(text@.subrange(at as int, at + part@.len()) =~= part@);
    true
}

/// The first place at which `part` stands in `text`.
pub fn find_fragment(text: &Vec<char>, part: &Vec<char>) -> (place: Option<usize>)
    ensures
        place is Some <==> has_fragment(text@, part@),
        place is None <==> first_fragment(text@, part@, 0) is None,
        place matches Some(at) ==> {
            &&& first_fragment(text@, part@, 0) == Some(at as int)
            &&& at + part@.len() <= text@.len()
        },
{
    if part.len() > text.len() {
        return None;
    }
    let last: usize = text.len() - part.len();
    let mut at: usize = 0;
    loop
        invariant
            last == text@.len() - part@.len(),
            at <= last,
            first_fragment(text@, part@, 0) == first_fragment(text@, part@, at as int),
            forall|k: int| 0 <= k < at ==> #[trigger] text@.subrange(k, k + part@.len()) != part@,
        decreases last - at,
    {
        if matches_at(text, part, at) {
            return Some(at);
        }
        if at == last {
            assert(first_fragment(text@, part@, at + 1) is None);
            return None;
        }
        at += 1;
    }
}

/// The end of the run of hexadecimal digits that begins at `from`.
pub fn find_hex_run_end(s: &Vec<char>, from: usize) -> (end: usize)
    requires
        from <= s@.len(),
    ensures
        end == hex_run_end(s@, from as int),
        from <= end <= s@.len(),
{
    let mut end: usize = from;
    while end < s.len() && digit_of(s[end]) < 16
        invariant
            from <= end <= s@.len(),
            hex_run_end(s@, from as int) == hex_run_end(s@, end as int),
        decreases s@.len() - end,
    {
        end += 1;
    }
    end
}

/// Whether `part` occurs in `text`.
pub fn contains_text(text: &str, part: &str) -> (found: bool)
    ensures
        found == has_fragment(text@, part@),
{
    find_fragment(&chars_of(text), &chars_of(part)).is_some()
}

/// Whether `text` begins with `part`.
pub fn starts_with(text: &Vec<char>, part: &Vec<char>) -> (yes: bool)
    ensures
        yes == begins_with(text@, part@),
{
    if part.len() > text.len() {
        return false;
    }
    assert(text@.take(part@.len() as int) =~= text@.subrange(0, part@.len() as int));
    matches_at(text, part, 0)
}

/// Whether a character is white space.
pub fn is_white_space(c: char) -> (yes: bool)
    ensures
        yes == white_space(c),
{
    let u: u32 = c as u32;
    (0x9 <= u && u <= 0xd) || u == 0x20 || u == 0x85 || u == 0xa0 || u == 0x1680 || (0x2000 <= u
        && u <= 0x200a) || u == 0x2028 || u == 0x2029 || u == 0x202f || u == 0x205f || u == 0x3000
}

/// The capital of an ASCII letter; any other character as it is.
pub fn to_ascii_upper(c: char) -> (r: char)
    ensures
        r == ascii_upper(c),
{
    if 'a' <= c && c <= 'z' {
        ((c as u8) - 32) as char
    } else {
        c
    }
}

// ---------------------------------------------------------------------------
// Reading numbers
// ---------------------------------------------------------------------------

/// The worth of a character as a digit.
pub fn digit_of(c: char) -> (d: u32)
    ensures
        d == digit_value(c),
{
    let u: u32 = c as u32;
    if '0' <= c && c <= '9' {
        u - 48
    } else if 'a' <= c && c <= 'z' {
        u - 97 + 10
    } else if 'A' <= c && c <= 'Z' {
        u - 65 + 10
    } else {
        36
    }
}

/// A longer row of digits is never worth less than its beginning.
proof fn lemma_number_grows(s: Seq<char>, k: int, radix: nat)
    requires
        0 <= k <= s.len(),
        radix >= 1,
    ensures
        number_value(s.take(k), radix) <= number_value(s, radix),
    decreases s.len() - k,
{
    if k == s.len() {
        assert(s.take(k) =~= s);
    } else {
        lemma_number_grows(s, k + 1, radix);
        let shorter = number_value(s.take(k), radix);
        assert(s.take(k + 1).drop_last() =~= s.take(k));
        assert(shorter <= shorter * radix) by (nonlinear_arith)
            requires
                radix >= 1,
        ;
    }
}

/// There is no fault exactly where all characters are digits and the number is not too large.
pub proof fn lemma_no_fault(s: Seq<char>, radix: nat, max: nat)
    requires
        radix >= 1,
        s.len() > 0,
    ensures
        first_fault(s, radix, max, 0) is None <==> all_digits(s, radix) && number_value(s, radix)
            <= max,
{
    lemma_no_fault_from(s, radix, max, 0);
}

proof fn lemma_no_fault_from(s: Seq<char>, radix: nat, max: nat, at: int)
    requires
        radix >= 1,
        0 <= at <= s.len(),
    ensures
        first_fault(s, radix, max, at) is None <==> {
            &&& forall|k: int| at <= k < s.len() ==> digit_value(#[trigger] s[k]) < radix
            &&& at < s.len() ==> number_value(s, radix) <= max
        },
    decreases s.len() - at,
{
    if at < s.len() {
        lemma_no_fault_from(s, radix, max, at + 1);
        lemma_number_grows(s, at + 1, radix);
        if at + 1 == s.len() {
            assert(s.take(at + 1) =~= s);
        }
    }
}

/// Reads the characters from `start` up to `end` as a number without a sign, of at most `max`.
pub fn read_digits(s: &Vec<char>, start: usize, end: usize, radix: u32, max: u64) -> (n: Result<
    u64,
    DigitsError,
>)
    requires
        start <= end <= s@.len(),
        2 <= radix <= 36,
    ensures
        ({
            let whole = s@.subrange(start as int, end as int);
            match n {
                Ok(v) => digits_number(whole, radix as nat, max as nat) == Ok::<nat, DigitsError>(
                    v as nat,
                ),
                Err(e) => digits_number(whole, radix as nat, max as nat) == Err::<
                    nat,
                    DigitsError,
                >(e),
            }
        }),
{
    let ghost digits = s@.subrange(start as int, end as int);
    if start == end {
        return Err(DigitsError::Empty);
    }
    let mut value: u64 = 0;
    let mut i: usize = start;
    while i < end
        invariant
            start <= i <= end <= s@.len(),
            2 <= radix <= 36,
            digits == s@.subrange(start as int, end as int),
            start < end,
            first_fault(digits, radix as nat, max as nat, 0) == first_fault(
                digits,
                radix as nat,
                max as nat,
                i - start,
            ),
            value == number_value(digits.take(i - start), radix as nat),
            value <= max,
        decreases end - i,
    {
        let d: u32 = digit_of(s[i]);
        assert(digits[i - start] == s@[i as int]);
        if d >= radix {
            return Err(DigitsError::InvalidDigit);
        }
        let ghost next = digits.take(i + 1 - start);
        assert(next.drop_last() =~= digits.take(i - start));
        assert(value as u128 * radix as u128 + d as u128 <= 0xffff_ffff_ffff_ffffu128 * 36u128 + 36u128)
            by (nonlinear_arith)
            requires
                value <= 0xffff_ffff_ffff_ffffu64,
                radix <= 36,
                d <= 36,
        ;
        let wide: u128 = value as u128 * radix as u128 + d as u128;
        if wide > max as u128 {
            return Err(DigitsError::TooLarge);
        }
        value = wide as u64;
        i += 1;
    }
    assert(digits.take(end - start) =~= digits);
    Ok(value)
}

/// Reads the characters from `start` up to `end` as an unsigned number of at most `max`.
pub fn read_unsigned(s: &Vec<char>, start: usize, end: usize, radix: u32, max: u64) -> (n: Option<
    u64,
>)
    requires
        start <= end <= s@.len(),
        2 <= radix <= 36,
    ensures
        n is Some == unsigned_number(
            s@.subrange(start as int, end as int),
            radix as nat,
            max as nat,
        ) is Some,
        n matches Some(v) ==> unsigned_number(
            s@.subrange(start as int, end as int),
            radix as nat,
            max as nat,
        ) == Some(v as nat),
{
    let first: usize = if start < end && s[start] == '+' {
        start + 1
    } else {
        start
    };
    assert(without_plus(s@.subrange(start as int, end as int)) =~= s@.subrange(
        first as int,
        end as int,
    ));
    proof {
        let digits = s@.subrange(first as int, end as int);
        if digits.len() > 0 {
            lemma_no_fault(digits, radix as nat, max as nat);
        }
    }
    match read_digits(s, first, end, radix, max) {
        Ok(value) => Some(value),
        Err(_) => None,
    }
}

/// The UTF-8 bytes of a text.
pub open spec fn utf8(s: Seq<char>) -> Seq<u8> {
    vstd::utf8::encode_utf8(s)
}

/// The value of the two bytes at `at`, if both are hexadecimal digits.
pub open spec fn hex_pair(bytes: Seq<u8>, at: int) -> Option<nat> {
    let pair = seq![bytes[at] as char, bytes[at + 1] as char];
    if all_digits(pair, 16) {
        Some(number_value(pair, 16))
    } else {
        None
    }
}

/// Reads the two bytes at `at` as a hexadecimal number.
pub fn read_hex_pair(bytes: &[u8], at: usize) -> (value: Option<u8>)
    requires
        at + 2 <= bytes@.len(),
    ensures
        value is Some == hex_pair(bytes@, at as int) is Some,
        value matches Some(v) ==> hex_pair(bytes@, at as int) == Some(v as nat),
{
    let high: u32 = digit_of(bytes[at] as char);
    let low: u32 = digit_of(bytes[at + 1] as char);
    let ghost pair = seq![bytes@[at as int] as char, bytes@[at + 1] as char];
    proof {
        reveal_with_fuel(number_value, 3);
        assert(pair.drop_last() =~= seq![pair[0]]);
        assert(seq![pair[0]].drop_last() =~= Seq::empty());
    }
    if high < 16 && low < 16 {
        Some((16 * high + low) as u8)
    } else {
        assert(digit_value(pair[0]) >= 16 || digit_value(pair[1]) >= 16);
        None
    }
}

// ---------------------------------------------------------------------------
// Writing values
// ---------------------------------------------------------------------------

/// The digit character for a value below 16.
fn hex_char_of(d: u8, upper: bool) -> (c: char)
    requires
        d < 16,
    ensures
        c == hex_char(d as nat, upper),
{
    if d < 10 {
        (48 + d) as char
    } else if upper {
        (65 + (d - 10)) as char
    } else {
        (97 + (d - 10)) as char
    }
}

/// Appends the last `width` hexadecimal digits of a value.
pub fn push_hex(out: &mut String, v: u32, width: u8, upper: bool)
    ensures
        final(out)@ == old(out)@ + hex_text(v as nat, width as nat, upper),
    decreases width,
{
    if width > 0 {
        push_hex(out, v / 16, width - 1, upper);
        out.push(hex_char_of((v % 16) as u8, upper));
    }
    assert(out@ =~= old(out)@ + hex_text(v as nat, width as nat, upper));
}

/// Appends a value in decimal.
pub fn push_decimal(out: &mut String, n: u64)
    ensures
        final(out)@ == old(out)@ + decimal_text(n as nat),
    decreases n,
{
    if n < 10 {
        out.push(hex_char_of(n as u8, false));
    } else {
        push_decimal(out, n / 10);
        out.push(hex_char_of((n % 10) as u8, false));
    }
    assert(out@ =~= old(out)@ + decimal_text(n as nat));
}

/// Appends a signed value in decimal.
pub fn push_signed(out: &mut String, n: i32)
    ensures
        final(out)@ == old(out)@ + signed_text(n as int),
{
    if n < 0 {
        out.push('-');
        push_decimal(out, (-(n as i64)) as u64);
        assert(out@ =~= old(out)@ + signed_text(n as int));
    } else {
        push_decimal(out, n as u64);
    }
}

/// Appends a text, then spaces until it takes up `width` characters.
pub fn push_padded(out: &mut String, s: &str, width: usize)
    ensures
        final(out)@ == old(out)@ + padded(s@, width as nat),
{
    out.append(s);
    let mut taken: usize = s.unicode_len();
    let ghost filled = out@;
    while taken < width
        invariant
            s@.len() <= taken,
            filled == old(out)@ + s@,
            s@.len() < width ==> taken <= width,
            s@.len() >= width ==> taken == s@.len(),
            out@ == filled + Seq::new((taken - s@.len()) as nat, |i: int| ' '),
        decreases width - taken,
    {
        out.push(' ');
        taken += 1;
        assert(out@ =~= filled + Seq::new((taken - s@.len()) as nat, |i: int| ' '));
    }
    assert(out@ =~= old(out)@ + padded(s@, width as nat));
}

/// The parts one after another, with the separator between neighbours.
pub fn join(parts: &Vec<String>, sep: &str) -> (out: String)
    ensures
        out@ == joined(texts(parts@), sep@),
{
    let mut out = String::new();
    let mut i: usize = 0;
    while i < parts.len()
        invariant
            i <= parts@.len(),
            out@ == joined(texts(parts@).take(i as int), sep@),
        decreases parts@.len() - i,
    {
        let ghost all = texts(parts@);
        if i > 0 {
            out.append(sep);
        }
        out.append(parts[i].as_str());
        assert(all.take(i + 1).drop_last() =~= all.take(i as int));
        assert(all.take(i + 1).last() == parts@[i as int]@);
        if i == 0 {
            assert(out@ =~= parts@[0]@);
        }
        i += 1;
    }
    assert(texts(parts@).take(i as int) =~= texts(parts@));
    out
}

// ---------------------------------------------------------------------------
// What is written reads back
// ---------------------------------------------------------------------------

/// Appending a digit to a row of digits.
proof fn lemma_number_push(s: Seq<char>, c: char, radix: nat)
    ensures
        number_value(s.push(c), radix) == number_value(s, radix) * radix + digit_value(c),
        all_digits(s, radix) && digit_value(c) < radix ==> all_digits(s.push(c), radix),
{
    assert(s.push(c).drop_last() =~= s);
}

/// The digit characters stand for their values.
proof fn lemma_hex_char(d: nat, upper: bool)
    requires
        d < 16,
    ensures
        digit_value(hex_char(d, upper)) == d,
        hex_char(d, upper) != '+',
{
}

proof fn lemma_decimal(n: nat)
    ensures
        decimal_text(n).len() > 0,
        decimal_text(n)[0] != '+',
        all_digits(decimal_text(n), 10),
        number_value(decimal_text(n), 10) == n,
    decreases n,
{
    if n < 10 {
        lemma_hex_char(n, false);
        lemma_number_push(Seq::empty(), hex_char(n, false), 10);
        assert(decimal_text(n) =~= Seq::empty().push(hex_char(n, false)));
    } else {
        lemma_decimal(n / 10);
        lemma_hex_char(n % 10, false);
        lemma_number_push(decimal_text(n / 10), hex_char(n % 10, false), 10);
    }
}

/// A number written in decimal reads back as itself.
pub proof fn law_decimal_reads_back(n: nat, max: nat)
    requires
        n <= max,
    ensures
        unsigned_number(decimal_text(n), 10, max) == Some(n),
{
    lemma_decimal(n);
}

/// Different numbers are written differently.
pub proof fn law_decimal_tells_apart(m: nat, n: nat)
    requires
        decimal_text(m) == decimal_text(n),
    ensures
        m == n,
{
    lemma_decimal(m);
    lemma_decimal(n);
}

/// How many values `width` hexadecimal digits can tell apart.
pub open spec fn hex_capacity(width: nat) -> nat
    decreases width,
{
    if width == 0 {
        1
    } else {
        16 * hex_capacity((width - 1) as nat)
    }
}

proof fn lemma_hex(v: nat, width: nat, upper: bool)
    requires
        v < hex_capacity(width),
    ensures
        hex_text(v, width, upper).len() == width,
        width > 0 ==> hex_text(v, width, upper)[0] != '+',
        all_digits(hex_text(v, width, upper), 16),
        number_value(hex_text(v, width, upper), 16) == v,
    decreases width,
{
    if width > 0 {
        lemma_hex(v / 16, (width - 1) as nat, upper);
        lemma_hex_char(v % 16, upper);
        lemma_number_push(
            hex_text(v / 16, (width - 1) as nat, upper),
            hex_char(v % 16, upper),
            16,
        );
    }
}

/// A number written in hexadecimal reads back as itself, where the digits can hold it.
pub proof fn law_hex_reads_back(v: nat, width: nat, upper: bool, max: nat)
    requires
        width > 0,
        v < hex_capacity(width),
        v <= max,
    ensures
        unsigned_number(hex_text(v, width, upper), 16, max) == Some(v),
{
    lemma_hex(v, width, upper);
}

/// A number written in hexadecimal reads back as itself also where no sign is allowed.
pub proof fn law_hex_digits_read_back(v: nat, width: nat, upper: bool, max: nat)
    requires
        width > 0,
        v < hex_capacity(width),
        v <= max,
    ensures
        digits_number(hex_text(v, width, upper), 16, max) == Ok::<nat, DigitsError>(v),
{
    lemma_hex(v, width, upper);
    lemma_no_fault(hex_text(v, width, upper), 16, max);
}

/// A pair of bytes of a text of ASCII characters is the number that the two characters stand for.
pub proof fn lemma_ascii_pairs(s: Seq<char>, at: int)
    requires
        vstd::utf8::is_ascii_chars(s),
        0 <= at,
        at + 2 <= s.len(),
    ensures
        utf8(s).len() == s.len(),
        hex_pair(utf8(s), at) == if all_digits(s.subrange(at, at + 2), 16) {
            Some(number_value(s.subrange(at, at + 2), 16))
        } else {
            None
        },
{
    let bytes = utf8(s);
    vstd::utf8::is_ascii_chars_encode_utf8(s);
    assert(s[at] as u8 == bytes[at]);
    assert(s[at + 1] as u8 == bytes[at + 1]);
    assert(s.subrange(at, at + 2) =~= seq![bytes[at] as char, bytes[at + 1] as char]);
}

/// What is written are hexadecimal digits, and those are ASCII characters.
pub proof fn lemma_hex_digits(v: nat, width: nat, upper: bool)
    ensures
        all_digits(hex_text(v, width, upper), 16),
        vstd::utf8::is_ascii_chars(hex_text(v, width, upper)),
    decreases width,
{
    if width > 0 {
        lemma_hex_digits(v / 16, (width - 1) as nat, upper);
        lemma_hex_char(v % 16, upper);
    }
}

/// The number of digits is what was asked for.
pub proof fn lemma_hex_len(v: nat, width: nat, upper: bool)
    ensures
        hex_text(v, width, upper).len() == width,
    decreases width,
{
    if width > 0 {
        lemma_hex_len(v / 16, (width - 1) as nat, upper);
    }
}

} // verus!
