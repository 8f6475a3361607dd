//! What is read out of arguments: hexadecimal payloads and report requests.

use crate::text::{self, DigitsError};
use vstd::prelude::*;

verus! {

// ---------------------------------------------------------------------------
// Payloads
// ---------------------------------------------------------------------------

/// The character does not separate bytes: it is neither white space nor a comma.
pub open spec fn counts(c: char) -> bool {
    !text::white_space(c) && c != ','
}

/// The text without what separates bytes.
pub open spec fn cleaned(s: Seq<char>) -> Seq<char> {
    s.filter(|c: char| counts(c))
}

/// The bytes of the text without what separates them.
pub open spec fn digits_of(s: Seq<char>) -> Seq<u8> {
    text::utf8(cleaned(s))
}

/// Why a text is not a payload.
#[derive(Debug, Clone, Copy, PartialEq, Eq, Structural)]
pub enum HexError {
    /// There is an odd number of digits.
    OddDigits,
    /// The two digits of this byte are not a number.
    BadHex {
        /// The byte, counted from zero.
        byte: usize,
    },
}

/// What is said of a text that is not a payload.
pub open spec fn hex_error_text(e: HexError) -> Seq<char> {
    match e {
        HexError::OddDigits => "hex payload must have an even number of digits"@,
        HexError::BadHex { byte } => "invalid hex at byte "@ + text::decimal_text(byte as nat),
    }
}

/// What is said of the cause, where there is one: a pair that is no number holds a character
/// that is no digit.
pub open spec fn hex_error_cause(e: HexError) -> Option<DigitsError> {
    match e {
        HexError::OddDigits => None,
        HexError::BadHex { .. } => Some(DigitsError::InvalidDigit),
    }
}

impl HexError {
    /// What is said of the text.
    pub fn to_string(&self) -> (s: String)
        ensures
            s@ == hex_error_text(*self),
    {
        match *self {
            HexError::OddDigits => "hex payload must have an even number of digits".to_owned(),
            HexError::BadHex { byte } => {
                let mut s = "invalid hex at byte ".to_owned();
                text::push_decimal(&mut s, byte as u64);
                s
            },
        }
    }

    /// The cause, where there is one.
    pub fn cause(&self) -> (cause: Option<DigitsError>)
        ensures
            cause == hex_error_cause(*self),
    {
        match *self {
            HexError::OddDigits => None,
            HexError::BadHex { .. } => Some(DigitsError::InvalidDigit),
        }
    }
}

/// The text without what separates bytes.
fn clean(s: &str) -> (out: String)
    ensures
        out@ == cleaned(s@),
{
    let chars = text::chars_of(s);
    let mut out = String::new();
    let mut i: usize = 0;
    proof {
        reveal(Seq::filter);
        assert(out@ =~= cleaned(chars@.take(0)));
    }
    while i < chars.len()
        invariant
            i <= chars@.len(),
            out@ == cleaned(chars@.take(i as int)),
        decreases chars@.len() - i,
    {
        proof {
            reveal(Seq::filter);
            assert(chars@.take(i + 1).drop_last() =~= chars@.take(i as int));
        }
        let c = chars[i];
        if !text::is_white_space(c) && c != ',' {
            out.push(c);
        }
        i += 1;
    }
    assert(chars@.take(i as int) =~= chars@);
    out
}

/// Reads a payload: two hexadecimal digits for each byte, with white space and commas between
/// them or not.
pub fn parse_hex_bytes(s: &str) -> (r: Result<Vec<u8>, HexError>)
    ensures
        ({
            let digits = digits_of(s@);
            match r {
                Ok(bytes) => {
                    &&& digits.len() == 2 * bytes@.len()
                    &&& forall|k: int|
                        0 <= k < bytes@.len() ==> text::hex_pair(digits, 2 * k) == Some(
                            #[trigger] bytes@[k] as nat,
                        )
                },
                Err(HexError::OddDigits) => digits.len() % 2 == 1,
                Err(HexError::BadHex { byte }) => {
                    &&& digits.len() % 2 == 0
                    &&& 2 * byte < digits.len()
                    &&& text::hex_pair(digits, 2 * byte) is None
                    &&& forall|k: int|
                        0 <= k < byte ==> #[trigger] text::hex_pair(digits, 2 * k) is Some
                },
            }
        }),
{
    let clean_text = clean(s);
    let digits = clean_text.as_str().as_bytes();
    if digits.len() % 2 != 0 {
        return Err(HexError::OddDigits);
    }
    let mut bytes: Vec<u8> = Vec::new();
    let mut k: usize = 0;
    while k < digits.len() / 2
        invariant
            digits@ == digits_of(s@),
            digits.len() == digits@.len(),
            digits@.len() % 2 == 0,
            2 * k <= digits@.len(),
            bytes@.len() == k,
            forall|j: int|
                0 <= j < k ==> text::hex_pair(digits@, 2 * j) == Some(#[trigger] bytes@[j] as nat),
        decreases digits@.len() - 2 * k,
    {
        match text::read_hex_pair(digits, 2 * k) {
            Some(value) => bytes.push(value),
            None => {
                assert forall|j: int| 0 <= j < k implies #[trigger] text::hex_pair(
                    digits@,
                    2 * j,
                ) is Some by {
                    assert(text::hex_pair(digits@, 2 * j) == Some(bytes@[j] as nat));
                }
                return Err(HexError::BadHex { byte: k });
            },
        }
        k += 1;
    }
    Ok(bytes)
}

/// The bytes as pairs of digits, each with the separator in front of it.
pub open spec fn spelled(bytes: Seq<u8>, sep: Seq<char>, upper: bool) -> Seq<char>
    decreases bytes.len(),
{
    if bytes.len() == 0 {
        Seq::empty()
    } else {
        spelled(bytes.drop_last(), sep, upper) + sep + text::hex_text(
            bytes.last() as nat,
            2,
            upper,
        )
    }
}

proof fn lemma_spelled_digits(bytes: Seq<u8>, sep: Seq<char>, upper: bool)
    requires
        forall|i: int| 0 <= i < sep.len() ==> !counts(#[trigger] sep[i]),
    ensures
        cleaned(spelled(bytes, sep, upper)) == spelled(bytes, Seq::empty(), upper),
        spelled(bytes, Seq::empty(), upper).len() == 2 * bytes.len(),
        vstd::utf8::is_ascii_chars(spelled(bytes, Seq::empty(), upper)),
        forall|k: int|
            0 <= k < bytes.len() ==> spelled(bytes, Seq::empty(), upper).subrange(2 * k, 2 * k + 2)
                == text::hex_text(#[trigger] bytes[k] as nat, 2, upper),
    decreases bytes.len(),
{
    reveal(Seq::filter);
    let bare = spelled(bytes, Seq::empty(), upper);
    if bytes.len() > 0 {
        let rest = bytes.drop_last();
        let pred = |c: char| counts(c);
        let hex = text::hex_text(bytes.last() as nat, 2, upper);
        lemma_spelled_digits(rest, sep, upper);
        text::lemma_hex_len(bytes.last() as nat, 2, upper);
        text::lemma_hex_digits(bytes.last() as nat, 2, upper);
        let head = spelled(rest, sep, upper);
        Seq::filter_distributes_over_add(head + sep, hex, pred);
        Seq::filter_distributes_over_add(head, sep, pred);
        lemma_all_dropped(sep);
        lemma_none_dropped(hex);
        assert(head.filter(pred) == spelled(rest, Seq::empty(), upper));
        assert(bare =~= spelled(rest, Seq::empty(), upper) + hex);
        assert(cleaned(spelled(bytes, sep, upper)) =~= bare);
        assert forall|k: int| 0 <= k < bytes.len() implies bare.subrange(2 * k, 2 * k + 2)
            == text::hex_text(#[trigger] bytes[k] as nat, 2, upper) by {
            if k < rest.len() {
                assert(rest[k] == bytes[k]);
                assert(bare.subrange(2 * k, 2 * k + 2) =~= spelled(
                    rest,
                    Seq::empty(),
                    upper,
                ).subrange(2 * k, 2 * k + 2));
            } else {
                assert(bare.subrange(2 * k, 2 * k + 2) =~= hex);
            }
        }
    }
}

proof fn lemma_all_dropped(s: Seq<char>)
    requires
        forall|i: int| 0 <= i < s.len() ==> !counts(#[trigger] s[i]),
    ensures
        s.filter(|c: char| counts(c)) == Seq::<char>::empty(),
    decreases s.len(),
{
    reveal(Seq::filter);
    if s.len() > 0 {
        assert(!counts(s[s.len() - 1]));
        assert forall|i: int| 0 <= i < s.drop_last().len() implies !counts(
            #[trigger] s.drop_last()[i],
        ) by {
            assert(s.drop_last()[i] == s[i]);
        }
        lemma_all_dropped(s.drop_last());
    } else {
        assert(s =~= Seq::empty());
    }
}

proof fn lemma_none_dropped(s: Seq<char>)
    requires
        text::all_digits(s, 16),
    ensures
        s.filter(|c: char| counts(c)) == s,
    decreases s.len(),
{
    reveal(Seq::filter);
    if s.len() > 0 {
        assert(text::digit_value(s[s.len() - 1]) < 16);
        assert forall|i: int| 0 <= i < s.drop_last().len() implies text::digit_value(
            #[trigger] s.drop_last()[i],
        ) < 16 by {
            assert(s.drop_last()[i] == s[i]);
        }
        lemma_none_dropped(s.drop_last());
        assert(s.drop_last().push(s.last()) =~= s);
    }
}

/// Bytes that are spelled out as pairs of digits of either case, with any white space and
/// commas between them or none, are read back as those bytes.
pub proof fn law_spelled_bytes_read_back(bytes: Seq<u8>, sep: Seq<char>, upper: bool)
    requires
        forall|i: int| 0 <= i < sep.len() ==> !counts(#[trigger] sep[i]),
    ensures
        digits_of(spelled(bytes, sep, upper)).len() == 2 * bytes.len(),
        forall|k: int|
            0 <= k < bytes.len() ==> text::hex_pair(digits_of(spelled(bytes, sep, upper)), 2 * k)
                == Some(#[trigger] bytes[k] as nat),
{
    let bare = spelled(bytes, Seq::empty(), upper);
    lemma_spelled_digits(bytes, sep, upper);
    vstd::utf8::is_ascii_chars_encode_utf8(bare);
    reveal_with_fuel(text::hex_capacity, 3);
    assert forall|k: int| 0 <= k < bytes.len() implies text::hex_pair(
        digits_of(spelled(bytes, sep, upper)),
        2 * k,
    ) == Some(#[trigger] bytes[k] as nat) by {
        text::lemma_ascii_pairs(bare, 2 * k);
        text::law_hex_digits_read_back(bytes[k] as nat, 2, upper, 255);
    }
}

// ---------------------------------------------------------------------------
// Report requests
// ---------------------------------------------------------------------------

/// The longest report that can be asked for.
pub const MAX_REPORT_LEN: usize = 4096;

/// A feature report to read: its id, and how many bytes to ask for, the id among them.
#[derive(Debug, Clone, Copy, PartialEq, Eq, Structural)]
pub struct ProbeRequest {
    pub id: u8,
    pub len: usize,
}

/// Why a report cannot be asked for.
#[derive(Debug, Clone, Copy, PartialEq, Eq, Structural)]
pub enum ProbeError {
    /// The report id is not a number of one byte; why.
    BadReportId(DigitsError),
    BadLength,
}

/// What is said of a report that cannot be asked for.
pub open spec fn probe_error_text(e: ProbeError) -> Seq<char> {
    match e {
        ProbeError::BadReportId(_) => "--report-id must be hex like `cc` or `0xcc`"@,
        ProbeError::BadLength => "--len must be 1..=4096"@,
    }
}

/// The cause, where there is one.
pub open spec fn probe_error_cause(e: ProbeError) -> Option<DigitsError> {
    match e {
        ProbeError::BadReportId(e) => Some(e),
        ProbeError::BadLength => None,
    }
}

impl ProbeError {
    /// What is said of the request.
    pub fn to_string(&self) -> (s: String)
        ensures
            s@ == probe_error_text(*self),
    {
        match *self {
            ProbeError::BadReportId(_) => "--report-id must be hex like `cc` or `0xcc`".to_owned(),
            ProbeError::BadLength => "--len must be 1..=4096".to_owned(),
        }
    }

    /// The cause, where there is one.
    pub fn cause(&self) -> (cause: Option<DigitsError>)
        ensures
            cause == probe_error_cause(*self),
    {
        match *self {
            ProbeError::BadReportId(e) => Some(e),
            ProbeError::BadLength => None,
        }
    }
}

/// The text begins with `0x`.
pub open spec fn has_hex_mark(s: Seq<char>) -> bool {
    s.len() >= 2 && s[0] == '0' && s[1] == 'x'
}

/// What follows a leading `0x`, if there is one.
pub open spec fn without_hex_mark(s: Seq<char>) -> Seq<char> {
    if has_hex_mark(s) {
        s.skip(2)
    } else {
        s
    }
}

/// The report that is asked for. The id is one or more hexadecimal digits, with `0x` in front
/// or not, worth at most 255; a wrong id is reported before a wrong length.
pub open spec fn requested(id: Seq<char>, len: nat) -> Result<ProbeRequest, ProbeError> {
    match text::digits_number(without_hex_mark(id), 16, 255) {
        Err(e) => Err(ProbeError::BadReportId(e)),
        Ok(value) => if 1 <= len <= MAX_REPORT_LEN {
            Ok(ProbeRequest { id: value as u8, len: len as usize })
        } else {
            Err(ProbeError::BadLength)
        },
    }
}

/// Reads the request for a feature report.
pub fn probe_request(report_id_hex: &str, len: usize) -> (r: Result<ProbeRequest, ProbeError>)
    ensures
        r == requested(report_id_hex@, len as nat),
{
    let chars = text::chars_of(report_id_hex);
    let start: usize = if chars.len() >= 2 && chars[0] == '0' && chars[1] == 'x' {
        2
    } else {
        0
    };
    assert(chars@.subrange(start as int, chars@.len() as int) =~= without_hex_mark(chars@));
    let id: u64 = match text::read_digits(&chars, start, chars.len(), 16, 255) {
        Ok(value) => value,
        Err(e) => {
            return Err(ProbeError::BadReportId(e));
        },
    };
    if len == 0 || len > MAX_REPORT_LEN {
        return Err(ProbeError::BadLength);
    }
    Ok(ProbeRequest { id: id as u8, len })
}

/// The buffer that a report is read into: the id first, the rest zero.
pub fn probe_buffer(request: &ProbeRequest) -> (buf: Vec<u8>)
    requires
        1 <= request.len,
    ensures
        buf@ == Seq::new(
            request.len as nat,
            |i: int|
                if i == 0 {
                    request.id
                } else {
                    0u8
                },
        ),
{
    let mut buf: Vec<u8> = Vec::new();
    buf.push(request.id);
    while buf.len() < request.len
        invariant
            1 <= buf.len() <= request.len,
            buf@[0] == request.id,
            forall|i: int| 1 <= i < buf@.len() ==> #[trigger] buf@[i] == 0,
        decreases request.len - buf.len(),
    {
        buf.push(0);
    }
    buf
}

/// What the reading of a report is called in messages.
pub fn probe_label(request: &ProbeRequest) -> (label: String)
    ensures
        label@ == "get_feature_report(0x"@ + text::hex_text(request.id as nat, 2, false) + ", "@
            + text::decimal_text(request.len as nat) + " bytes)"@,
{
    let mut label = "get_feature_report(0x".to_owned();
    text::push_hex(&mut label, request.id as u32, 2, false);
    label.append(", ");
    text::push_decimal(&mut label, request.len as u64);
    label.append(" bytes)");
    label
}

/// Every report id is read back from its two hexadecimal digits.
pub proof fn law_report_id_reads_back(id: u8, upper: bool, len: usize)
    requires
        1 <= len <= MAX_REPORT_LEN,
    ensures
        requested(text::hex_text(id as nat, 2, upper), len as nat) == Ok::<
            ProbeRequest,
            ProbeError,
        >(ProbeRequest { id, len }),
{
    let digits = text::hex_text(id as nat, 2, upper);
    text::lemma_hex_len(id as nat, 2, upper);
    text::lemma_hex_digits(id as nat, 2, upper);
    reveal_with_fuel(text::hex_capacity, 3);
    text::law_hex_digits_read_back(id as nat, 2, upper, 255);
    assert(text::digit_value(digits[1]) < 16);
}

/// A `0x` in front of a report id makes no difference, unless there is one already.
pub proof fn law_hex_mark_is_optional(id: Seq<char>, len: nat)
    requires
        !has_hex_mark(id),
    ensures
        requested("0x"@ + id, len) == requested(id, len),
{
    reveal_strlit("0x");
    assert(("0x"@ + id).skip(2) =~= id);
}

} // verus!
