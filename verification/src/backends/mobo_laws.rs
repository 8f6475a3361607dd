//! What holds of every painting of a motherboard.

use crate::backend::Color;
use crate::backends::gigabyte_mobo::{self, HidStepView};
use crate::text;
use crate::wire;
use vstd::prelude::*;

verus! {

/// Every report that is sent is 64 bytes long and begins with the report id.
pub open spec fn well_framed(steps: Seq<HidStepView>) -> bool {
    forall|i: int|
        0 <= i < steps.len() ==> (#[trigger] steps[i] matches HidStepView::Report(p) ==> p.len()
            == gigabyte_mobo::PACKET_LEN && p[0] == gigabyte_mobo::REPORT_ID)
}

proof fn lemma_strip_framed(header: u8, color: Color, sent: nat, led_count: nat)
    ensures
        well_framed(
            gigabyte_mobo::reports(
                gigabyte_mobo::strip_packets(header, color, sent, led_count),
            ),
        ),
    decreases led_count - sent,
{
    if sent < led_count {
        let n = gigabyte_mobo::leds_in_packet((led_count - sent) as nat);
        let packets = gigabyte_mobo::strip_packets(header, color, sent, led_count);
        let rest = gigabyte_mobo::strip_packets(header, color, sent + n, led_count);
        lemma_strip_framed(header, color, sent + n, led_count);
        let steps = gigabyte_mobo::reports(packets);
        assert forall|i: int| 0 <= i < steps.len() implies (#[trigger] steps[i] matches
            HidStepView::Report(p) ==> p.len() == gigabyte_mobo::PACKET_LEN && p[0]
            == gigabyte_mobo::REPORT_ID) by {
            if i > 0 {
                assert(steps[i] == gigabyte_mobo::reports(rest)[i - 1]);
            }
        }
    }
}

proof fn lemma_strips_framed(color: Color, n: nat)
    ensures
        well_framed(gigabyte_mobo::strips_steps(color, n)),
    decreases n,
{
    if n > 0 {
        lemma_strips_framed(color, (n - 1) as nat);
        lemma_strip_framed(
            gigabyte_mobo::argb_headers()[n - 1],
            color,
            0,
            gigabyte_mobo::DEFAULT_LEDS_PER_HEADER as nat,
        );
    }
}

/// Every report that a painting sends is 64 bytes long and begins with the report id.
pub proof fn law_reports_are_well_framed(pid: u16, color: Color)
    ensures
        well_framed(gigabyte_mobo::paint_steps(pid, color)),
{
    lemma_strips_framed(color, 4);
}

// ---------------------------------------------------------------------------
// A model of an addressable strip
// ---------------------------------------------------------------------------

/// The bytes that a strip shows, by their offset: three for each LED.
pub type Strip = Map<int, u8>;

/// What a packet does to the strip at a header: packets for other headers do nothing; its own
/// ones put their bytes at the offset that they name.
pub open spec fn strip_after(strip: Strip, header: u8, p: Seq<u8>) -> Strip {
    if p[1] != header {
        strip
    } else {
        let offset = wire::le_value(p.subrange(2, 4)) as int;
        Map::new(
            |k: int| strip.dom().contains(k) || offset <= k < offset + p[4],
            |k: int|
                if offset <= k < offset + p[4] {
                    p[5 + k - offset]
                } else {
                    strip[k]
                },
        )
    }
}

/// What a row of steps does to the strip at a header.
pub open spec fn strip_after_all(strip: Strip, header: u8, steps: Seq<HidStepView>) -> Strip
    decreases steps.len(),
{
    if steps.len() == 0 {
        strip
    } else {
        let before = strip_after_all(strip, header, steps.drop_last());
        match steps.last() {
            HidStepView::Report(p) => strip_after(before, header, p),
            HidStepView::Pause(_) => before,
        }
    }
}

/// The strip with the bytes from `from` up to `to` painted, and all else as it was.
pub open spec fn painted(strip: Strip, color: Color, from: int, to: int) -> Strip {
    Map::new(
        |k: int| strip.dom().contains(k) || from <= k < to,
        |k: int|
            if from <= k < to {
                gigabyte_mobo::grb_byte(color, k % 3)
            } else {
                strip[k]
            },
    )
}

proof fn lemma_two_rows(strip: Strip, header: u8, a: Seq<HidStepView>, b: Seq<HidStepView>)
    ensures
        strip_after_all(strip, header, a + b) == strip_after_all(
            strip_after_all(strip, header, a),
            header,
            b,
        ),
    decreases b.len(),
{
    if b.len() == 0 {
        assert(a + b =~= a);
    } else {
        lemma_two_rows(strip, header, a, b.drop_last());
        assert((a + b).drop_last() =~= a + b.drop_last());
    }
}

proof fn lemma_one_packet(strip: Strip, header: u8, color: Color, first: nat, count: nat)
    requires
        count <= gigabyte_mobo::LEDS_PER_PACKET,
        3 * (first + count) <= 0x1_0000,
    ensures
        strip_after(strip, header, gigabyte_mobo::strip_packet(header, color, first, count))
            == painted(strip, color, 3 * first as int, 3 * (first + count) as int),
{
    let p = gigabyte_mobo::strip_packet(header, color, first, count);
    let end = strip_after(strip, header, p);
    let want = painted(strip, color, 3 * first as int, 3 * (first + count) as int);
    if count == 0 {
        assert(end =~= want);
    } else {
        let offset = 3 * first;
        wire::lemma_le_bytes_len(offset, 2);
        assert(p.subrange(2, 4) =~= wire::le_bytes(offset % 0x1_0000, 2));
        reveal_with_fuel(wire::byte_capacity, 3);
        wire::law_value_reads_back(offset, 2);
        assert(p[4] == 3 * count);
        assert forall|k: int| offset <= k < offset + 3 * count implies #[trigger] end[k]
            == gigabyte_mobo::grb_byte(color, k % 3) by {
            assert((k - offset) % 3 == k % 3);
        }
        assert(end =~= want);
    }
}

/// Painting the LEDs of a strip from `sent` on gives each of them its color, in the order
/// green, red, blue, and changes no other LED of the strip.
pub proof fn law_strip_is_painted(
    strip: Strip,
    header: u8,
    color: Color,
    sent: nat,
    led_count: nat,
)
    requires
        sent <= led_count,
        3 * led_count <= 0x1_0000,
    ensures
        strip_after_all(
            strip,
            header,
            gigabyte_mobo::reports(gigabyte_mobo::strip_packets(header, color, sent, led_count)),
        ) == painted(strip, color, 3 * sent as int, 3 * led_count as int),
    decreases led_count - sent,
{
    let packets = gigabyte_mobo::strip_packets(header, color, sent, led_count);
    if sent >= led_count {
        assert(gigabyte_mobo::reports(packets) =~= Seq::empty());
        assert(painted(strip, color, 3 * sent as int, 3 * led_count as int) =~= strip);
    } else {
        let n = gigabyte_mobo::leds_in_packet((led_count - sent) as nat);
        let first = seq![gigabyte_mobo::strip_packet(header, color, sent, n)];
        let rest = gigabyte_mobo::strip_packets(header, color, sent + n, led_count);
        let row = gigabyte_mobo::reports(first);
        assert(gigabyte_mobo::reports(packets) =~= row + gigabyte_mobo::reports(rest));
        lemma_two_rows(strip, header, row, gigabyte_mobo::reports(rest));
        reveal_with_fuel(strip_after_all, 2);
        assert(row.drop_last() =~= Seq::empty());
        lemma_one_packet(strip, header, color, sent, n);
        let middle = painted(strip, color, 3 * sent as int, 3 * (sent + n) as int);
        assert(strip_after_all(strip, header, row) == middle);
        law_strip_is_painted(middle, header, color, sent + n, led_count);
        assert(painted(middle, color, 3 * (sent + n) as int, 3 * led_count as int) =~= painted(
            strip,
            color,
            3 * sent as int,
            3 * led_count as int,
        ));
    }
}

/// A strip of `led_count` LEDs takes one packet for every 19 LEDs, the last one for the rest:
/// every packet but the last has 57 bytes of color, the last three for each LED that is left.
pub proof fn law_packet_count(header: u8, color: Color, sent: nat, led_count: nat)
    requires
        sent <= led_count,
    ensures
        ({
            let packets = gigabyte_mobo::strip_packets(header, color, sent, led_count);
            &&& packets.len() == (led_count - sent + gigabyte_mobo::LEDS_PER_PACKET - 1) / (
            gigabyte_mobo::LEDS_PER_PACKET as int)
            &&& packets.len() == (led_count - sent + 18) / 19
            &&& forall|k: int|
                0 <= k < packets.len() ==> (#[trigger] packets[k])[4] == if k < packets.len() - 1 {
                    57
                } else {
                    3 * (led_count - sent - 19 * k)
                }
        }),
    decreases led_count - sent,
{
    if sent < led_count {
        let n = gigabyte_mobo::leds_in_packet((led_count - sent) as nat);
        law_packet_count(header, color, sent + n, led_count);
        let packets = gigabyte_mobo::strip_packets(header, color, sent, led_count);
        let rest = gigabyte_mobo::strip_packets(header, color, sent + n, led_count);
        assert forall|k: int| 0 <= k < packets.len() implies (#[trigger] packets[k])[4] == if k
            < packets.len() - 1 {
            57
        } else {
            3 * (led_count - sent - 19 * k)
        } by {
            if k > 0 {
                assert(packets[k] == rest[k - 1]);
            }
        }
    }
}

proof fn lemma_foreign_packets(
    strip: Strip,
    header: u8,
    other: u8,
    color: Color,
    sent: nat,
    led_count: nat,
)
    requires
        header != other,
    ensures
        strip_after_all(
            strip,
            header,
            gigabyte_mobo::reports(gigabyte_mobo::strip_packets(other, color, sent, led_count)),
        ) == strip,
    decreases led_count - sent,
{
    let packets = gigabyte_mobo::strip_packets(other, color, sent, led_count);
    if sent >= led_count {
        assert(gigabyte_mobo::reports(packets) =~= Seq::empty());
    } else {
        let n = gigabyte_mobo::leds_in_packet((led_count - sent) as nat);
        let first = seq![gigabyte_mobo::strip_packet(other, color, sent, n)];
        let rest = gigabyte_mobo::strip_packets(other, color, sent + n, led_count);
        let row = gigabyte_mobo::reports(first);
        assert(gigabyte_mobo::reports(packets) =~= row + gigabyte_mobo::reports(rest));
        lemma_two_rows(strip, header, row, gigabyte_mobo::reports(rest));
        reveal_with_fuel(strip_after_all, 2);
        assert(row.drop_last() =~= Seq::empty());
        lemma_foreign_packets(strip, header, other, color, sent + n, led_count);
    }
}

pub(crate) proof fn lemma_strips(strip: Strip, h: int, color: Color, n: nat)
    requires
        0 <= h < 4,
        n <= 4,
    ensures
        strip_after_all(
            strip,
            gigabyte_mobo::argb_headers()[h],
            gigabyte_mobo::strips_steps(color, n),
        ) == if h < n {
            painted(strip, color, 0, 96)
        } else {
            strip
        },
    decreases n,
{
    if n > 0 {
        lemma_strips(strip, h, color, (n - 1) as nat);
        let header = gigabyte_mobo::argb_headers()[h];
        let last = gigabyte_mobo::argb_headers()[n - 1];
        let before = gigabyte_mobo::strips_steps(color, (n - 1) as nat);
        let row = gigabyte_mobo::reports(gigabyte_mobo::strip_packets(last, color, 0, 32));
        lemma_two_rows(strip, header, before, row);
        if h == n - 1 {
            law_strip_is_painted(strip, header, color, 0, 32);
        } else {
            let now = strip_after_all(strip, header, before);
            lemma_foreign_packets(now, header, last, color, 0, 32);
        }
    }
}

/// A painting gives the first 32 LEDs at each of the four addressable headers the color, and
/// changes no further LED.
pub proof fn law_painting_reaches_every_header(strip: Strip, h: int, pid: u16, color: Color)
    requires
        0 <= h < 4,
    ensures
        strip_after_all(
            strip,
            gigabyte_mobo::argb_headers()[h],
            gigabyte_mobo::paint_steps(pid, color),
        ) == painted(strip, color, 0, 96),
{
    let header = gigabyte_mobo::argb_headers()[h];
    let steps = gigabyte_mobo::paint_steps(pid, color);
    let opening = steps.take(6);
    assert(steps =~= opening + gigabyte_mobo::strips_steps(color, 4));
    lemma_two_rows(strip, header, opening, gigabyte_mobo::strips_steps(color, 4));
    reveal_with_fuel(strip_after_all, 7);
    assert(strip_after_all(strip, header, opening) == strip);
    lemma_strips(strip, h, color, 4);
}

/// The effect packet selects every onboard zone of the product: eight of them, eleven on the
/// wide product.
pub proof fn law_effect_selects_every_zone(pid: u16, color: Color)
    ensures
        wire::le_value(gigabyte_mobo::effect_packet(pid, color).subrange(2, 6))
            == gigabyte_mobo::zone_mask(pid),
{
    let mask = gigabyte_mobo::zone_mask(pid);
    wire::lemma_le_bytes_len(mask, 4);
    assert(gigabyte_mobo::effect_packet(pid, color).subrange(2, 6) =~= wire::le_bytes(mask, 4));
    reveal_with_fuel(wire::byte_capacity, 5);
    wire::law_value_reads_back(mask, 4);
}

/// The color field of the effect packet is blue, green, red and a zero, which is the
/// little-endian form of the number that the color's six digits spell.
pub proof fn law_effect_color_is_little_endian(pid: u16, color: Color)
    ensures
        wire::le_value(gigabyte_mobo::effect_packet(pid, color).subrange(14, 18)) == color.r
            * 0x1_0000 + color.g * 0x100 + color.b,
{
    let field = gigabyte_mobo::effect_packet(pid, color).subrange(14, 18);
    reveal_with_fuel(wire::le_value, 5);
    assert(field =~= seq![color.b, color.g, color.r, 0u8]);
    assert(field.skip(1) =~= seq![color.g, color.r, 0u8]);
    assert(field.skip(1).skip(1) =~= seq![color.r, 0u8]);
    assert(field.skip(1).skip(1).skip(1) =~= seq![0u8]);
    assert(field.skip(1).skip(1).skip(1).skip(1) =~= Seq::empty());
}

// ---------------------------------------------------------------------------
// Paths
// ---------------------------------------------------------------------------

/// The text in capitals.
pub open spec fn capitals(s: Seq<char>) -> Seq<char> {
    s.map_values(|c: char| text::ascii_upper(c))
}

proof fn lemma_hex_capitals(v: nat, width: nat, upper: bool)
    ensures
        capitals(text::hex_text(v, width, upper)) == text::hex_text(v, width, true),
    decreases width,
{
    if width == 0 {
        assert(capitals(text::hex_text(v, width, upper)) =~= text::hex_text(v, width, true));
    } else {
        lemma_hex_capitals(v / 16, (width - 1) as nat, upper);
        let d = v % 16;
        assert(text::ascii_upper(text::hex_char(d, upper)) == text::hex_char(d, true));
        assert(capitals(text::hex_text(v, width, upper)) =~= text::hex_text(v, width, true));
    }
}

proof fn lemma_first_fragment(s: Seq<char>, part: Seq<char>, from: int, at: int)
    requires
        0 <= from <= at,
        at + part.len() <= s.len(),
        s.subrange(at, at + part.len()) == part,
        forall|k: int| from <= k < at ==> #[trigger] s.subrange(k, k + part.len()) != part,
    ensures
        text::first_fragment(s, part, from) == Some(at),
    decreases at - from,
{
    if from < at {
        assert(s.subrange(from, from + part.len()) != part);
        lemma_first_fragment(s, part, from + 1, at);
    }
}

pub(crate) proof fn lemma_run_end(s: Seq<char>, from: int, end: int)
    requires
        0 <= from <= end <= s.len(),
        forall|k: int| from <= k < end ==> text::digit_value(#[trigger] s[k]) < 16,
        end < s.len() ==> text::digit_value(s[end]) >= 16,
    ensures
        text::hex_run_end(s, from) == end,
    decreases end - from,
{
    if from < end {
        lemma_run_end(s, from + 1, end);
    }
}

/// A token that first stands behind a text which does not hold it: nothing that begins earlier
/// is the token, for its first letter occurs in it only once.
pub(crate) proof fn lemma_token_place(before: Seq<char>, rest: Seq<char>)
    requires
        !text::has_fragment(before, "PID_"@),
    ensures
        text::first_fragment(before + "PID_"@ + rest, "PID_"@, 0) == Some(before.len() as int),
{
    reveal_strlit("PID_");
    let token = "PID_"@;
    let up = before + token + rest;
    let n = before.len() as int;
    assert(token.len() == 4);
    assert(up.subrange(n, n + 4) =~= token);
    assert forall|k: int| 0 <= k < n implies #[trigger] up.subrange(k, k + token.len()) != token by {
        let piece = up.subrange(k, k + 4);
        if piece == token {
            assert(piece[0] == 'P' && piece[1] == 'I' && piece[2] == 'D' && piece[3] == '_');
            if k + 4 <= n {
                assert(before.subrange(k, k + token.len()) =~= token);
            } else {
                let m = n - k;
                assert(m == 1 || m == 2 || m == 3);
                assert(up[n] == token[0]);
                assert(piece[m] == up[k + m]);
            }
        }
    }
    lemma_first_fragment(up, token, 0, n);
}

/// Every product id is read back out of a path that names it with four digits, of either case,
/// behind the first `PID_` in it.
pub proof fn law_pid_reads_back(
    before: Seq<char>,
    pid: u16,
    upper: bool,
    after: Seq<char>,
)
    requires
        !text::has_fragment(capitals(before), "PID_"@),
        after.len() > 0 ==> text::digit_value(after[0]) >= 16,
    ensures
        gigabyte_mobo::path_pid(
            before + "PID_"@ + text::hex_text(pid as nat, 4, upper) + after,
        ) == pid,
{
    reveal_strlit("PID_");
    let token = "PID_"@;
    let hex = text::hex_text(pid as nat, 4, upper);
    let path = before + token + hex + after;
    let up = path.map_values(|c: char| text::ascii_upper(c));
    let digits = text::hex_text(pid as nat, 4, true);
    lemma_hex_capitals(pid as nat, 4, upper);
    text::lemma_hex_len(pid as nat, 4, upper);
    text::lemma_hex_len(pid as nat, 4, true);
    let n = before.len() as int;
    assert(up =~= capitals(before) + token + digits + capitals(after));
    lemma_token_place(capitals(before), digits + capitals(after));
    assert(up =~= capitals(before) + token + (digits + capitals(after)));
    text::lemma_hex_digits(pid as nat, 4, true);
    assert(up.subrange(n + 4, n + 8) =~= digits);
    assert forall|k: int| n + 4 <= k < n + 8 implies text::digit_value(#[trigger] up[k]) < 16 by {
        assert(up[k] == digits[k - n - 4]);
    }
    if after.len() > 0 {
        assert(up[n + 8] == text::ascii_upper(after[0]));
    }
    lemma_run_end(up, n + 4, n + 8);
    reveal_with_fuel(text::hex_capacity, 5);
    text::law_hex_reads_back(pid as nat, 4, true, 0xFFFF);
}

} // verus!
