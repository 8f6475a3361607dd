//! A model of a motherboard's lights, and what a painting leaves them showing.

use crate::backend::Color;
use crate::backends::gigabyte_mobo::{self, HidStepView};
use crate::backends::mobo_laws::{self, Strip};
use crate::wire;
use vstd::prelude::*;

verus! {

// ---------------------------------------------------------------------------
// The model
// ---------------------------------------------------------------------------

/// What an onboard zone does: the kind of effect, the highest and the lowest brightness, and
/// the color.
pub struct Effect {
    pub kind: u8,
    pub brightness: u8,
    pub dimmed: u8,
    pub color: Color,
}

/// A board: whether another driver has control of it; the effects of the onboard zones, staged
/// and committed; the mask of what the firmware leaves alone and the milliseconds since it was
/// set; the codes of the strip lengths; and the bytes that each addressable strip shows.
pub struct Board {
    pub lamp_array: bool,
    pub staged: Map<nat, Effect>,
    pub zones: Map<nat, Effect>,
    pub frozen: u8,
    pub waited: nat,
    pub lengths: (u8, u8),
    pub strips: Map<u8, Strip>,
}

/// The bit of a number at a place.
pub open spec fn bit(mask: nat, place: nat) -> bool
    decreases place,
{
    if place == 0 {
        mask % 2 == 1
    } else {
        bit(mask / 2, (place - 1) as nat)
    }
}

/// The zones that a mask selects take the effects of the one map, the others those of the other.
pub open spec fn overlaid(base: Map<nat, Effect>, mask: nat, over: spec_fn(nat) -> Effect) -> Map<
    nat,
    Effect,
> {
    Map::new(
        |z: nat| base.dom().contains(z) || bit(mask, z),
        |z: nat|
            if bit(mask, z) {
                over(z)
            } else {
                base[z]
            },
    )
}

/// The firmware's own effects are off for the strip at a header. Each header has its own bit.
pub open spec fn is_free(frozen: u8, header: u8) -> bool {
    ||| header == 0x58 && bit(frozen as nat, 0)
    ||| header == 0x59 && bit(frozen as nat, 1)
    ||| header == 0x62 && bit(frozen as nat, 3)
    ||| header == 0x63 && bit(frozen as nat, 4)
}

/// What a report does to the board. Reports without the id 0xCC do nothing.
pub open spec fn board_after(b: Board, p: Seq<u8>) -> Board {
    if p.len() != 64 || p[0] != 0xCC {
        b
    } else if p[1] == 0x48 {
        Board { lamp_array: p[2] != 0, ..b }
    } else if p[1] == 0x20 {
        if b.lamp_array {
            b
        } else {
            let effect = Effect {
                kind: p[11],
                brightness: p[12],
                dimmed: p[13],
                color: Color { r: p[16], g: p[15], b: p[14] },
            };
            let mask = (p[2] + 256 * p[3] + 65536 * p[4] + 16777216 * p[5]) as nat;
            Board { staged: overlaid(b.staged, mask, |z: nat| effect), ..b }
        }
    } else if p[1] == 0x28 {
        let staged = b.staged;
        Board { zones: overlaid(b.zones, (p[2] + 256 * p[3]) as nat, |z: nat| staged[z]), ..b }
    } else if p[1] == 0x32 {
        Board { frozen: p[2], waited: 0, ..b }
    } else if p[1] == 0x34 {
        Board { lengths: (p[2], p[3]), ..b }
    } else if is_free(b.frozen, p[1]) && b.waited >= 50 {
        Board { strips: b.strips.insert(p[1], strip_with(b.strips[p[1]], p)), ..b }
    } else {
        b
    }
}

/// A strip with the bytes of a packet put at the offset that the packet names.
pub open spec fn strip_with(strip: Strip, p: Seq<u8>) -> Strip {
    let offset = p[2] + 256 * p[3];
    Map::new(
        |k: int| strip.dom().contains(k) || offset <= k < offset + p[4],
        |k: int|
            if offset <= k < offset + p[4] {
                p[5 + k - offset]
            } else {
                strip[k]
            },
    )
}

/// What a row of steps does to the board.
pub open spec fn board_after_all(b: Board, steps: Seq<HidStepView>) -> Board
    decreases steps.len(),
{
    if steps.len() == 0 {
        b
    } else {
        let before = board_after_all(b, steps.drop_last());
        match steps.last() {
            HidStepView::Report(p) => board_after(before, p),
            HidStepView::Pause(ms) => Board { waited: before.waited + ms, ..before },
        }
    }
}

// ---------------------------------------------------------------------------
// What a painting does
// ---------------------------------------------------------------------------

proof fn lemma_two_rows(b: Board, x: Seq<HidStepView>, y: Seq<HidStepView>)
    ensures
        board_after_all(b, x + y) == board_after_all(board_after_all(b, x), y),
    decreases y.len(),
{
    if y.len() == 0 {
        assert(x + y =~= x);
    } else {
        lemma_two_rows(b, x, y.drop_last());
        assert((x + y).drop_last() =~= x + y.drop_last());
    }
}

proof fn lemma_no_bit(place: nat)
    ensures
        !bit(0, place),
    decreases place,
{
    if place > 0 {
        lemma_no_bit((place - 1) as nat);
    }
}

/// The bits of the two masks that select all zones.
proof fn lemma_mask_bits(place: nat)
    ensures
        bit(0xFF, place) == (place < 8),
        bit(0x7FF, place) == (place < 11),
{
    reveal_with_fuel(bit, 12);
    if place >= 8 {
        lemma_no_bit((place - 8) as nat);
    }
    if place >= 11 {
        lemma_no_bit((place - 11) as nat);
    }
}

/// The number of onboard zones of a product.
pub open spec fn zone_count(pid: u16) -> nat {
    if pid == 0x5711 {
        11
    } else {
        8
    }
}

/// A zone has in one map the effect that it has in the other.
pub open spec fn same_zone(a: Map<nat, Effect>, b: Map<nat, Effect>, z: nat) -> bool {
    &&& a.dom().contains(z) == b.dom().contains(z)
    &&& a.dom().contains(z) ==> a[z] == b[z]
}

/// The strip shows the color on its LEDs from `first` up to `last`, as green, red, blue.
pub open spec fn leds_show(strip: Strip, color: Color, first: nat, last: nat) -> bool {
    forall|led: int|
        first <= led < last ==> {
            &&& strip.dom().contains(3 * led)
            &&& strip.dom().contains(3 * led + 1)
            &&& strip.dom().contains(3 * led + 2)
            &&& #[trigger] strip[3 * led] == color.g
            &&& strip[3 * led + 1] == color.r
            &&& strip[3 * led + 2] == color.b
        }
}

/// The strip is as it was but for the LEDs from `first` up to `last`.
pub open spec fn others_stay(strip: Strip, before: Strip, first: nat, last: nat) -> bool {
    forall|k: int|
        !(3 * first <= k < 3 * last) ==> {
            &&& #[trigger] strip.dom().contains(k) == before.dom().contains(k)
            &&& strip.dom().contains(k) ==> strip[k] == before[k]
        }
}

proof fn lemma_painted_shows(strip: Strip, color: Color, first: nat, last: nat)
    ensures
        leds_show(
            mobo_laws::painted(strip, color, 3 * first as int, 3 * last as int),
            color,
            first,
            last,
        ),
        others_stay(
            mobo_laws::painted(strip, color, 3 * first as int, 3 * last as int),
            strip,
            first,
            last,
        ),
{
    let end = mobo_laws::painted(strip, color, 3 * first as int, 3 * last as int);
    assert forall|led: int| first <= led < last implies {
        &&& end.dom().contains(3 * led)
        &&& end.dom().contains(3 * led + 1)
        &&& end.dom().contains(3 * led + 2)
        &&& #[trigger] end[3 * led] == color.g
        &&& end[3 * led + 1] == color.r
        &&& end[3 * led + 2] == color.b
    } by {
        assert((3 * led) % 3 == 0);
        assert((3 * led + 1) % 3 == 1);
        assert((3 * led + 2) % 3 == 2);
    }
}

/// A row of strip packets paints exactly the LEDs from `sent` up to `led_count` of a strip whose
/// bytes it reaches, whatever the header.
pub proof fn law_strip_shows_the_color(
    strip: Strip,
    header: u8,
    color: Color,
    sent: nat,
    led_count: nat,
)
    requires
        sent <= led_count,
        3 * led_count <= 0x1_0000,
    ensures
        ({
            let end = mobo_laws::strip_after_all(
                strip,
                header,
                gigabyte_mobo::reports(
                    gigabyte_mobo::strip_packets(header, color, sent, led_count),
                ),
            );
            &&& leds_show(end, color, sent, led_count)
            &&& others_stay(end, strip, sent, led_count)
        }),
{
    mobo_laws::law_strip_is_painted(strip, header, color, sent, led_count);
    lemma_painted_shows(strip, color, sent, led_count);
}

/// The steps are strip packets for the four headers.
pub open spec fn strips_only(steps: Seq<HidStepView>) -> bool {
    forall|i: int|
        0 <= i < steps.len() ==> (#[trigger] steps[i] matches HidStepView::Report(p) && p.len()
            == 64 && p[0] == 0xCC && (p[1] == 0x58 || p[1] == 0x59 || p[1] == 0x62 || p[1] == 0x63))
}

proof fn lemma_packets_are_strips(header: u8, color: Color, sent: nat, led_count: nat)
    requires
        header == 0x58 || header == 0x59 || header == 0x62 || header == 0x63,
    ensures
        strips_only(
            gigabyte_mobo::reports(
                gigabyte_mobo::strip_packets(header, color, sent, led_count),
            ),
        ),
    decreases led_count - sent,
{
    if sent < led_count {
        let n = gigabyte_mobo::leds_in_packet((led_count - sent) as nat);
        let packets = gigabyte_mobo::strip_packets(header, color, sent, led_count);
        let rest = gigabyte_mobo::strip_packets(header, color, sent + n, led_count);
        lemma_packets_are_strips(header, color, sent + n, led_count);
        let steps = gigabyte_mobo::reports(packets);
        assert forall|i: int| 0 <= i < steps.len() implies (#[trigger] steps[i] matches
            HidStepView::Report(p) && p.len() == 64 && p[0] == 0xCC && (p[1] == 0x58 || p[1] == 0x59
            || p[1] == 0x62 || p[1] == 0x63)) by {
            if i > 0 {
                assert(steps[i] == gigabyte_mobo::reports(rest)[i - 1]);
            }
        }
    }
}

proof fn lemma_steps_are_strips(color: Color, n: nat)
    requires
        n <= 4,
    ensures
        strips_only(gigabyte_mobo::strips_steps(color, n)),
    decreases n,
{
    if n > 0 {
        lemma_steps_are_strips(color, (n - 1) as nat);
        lemma_packets_are_strips(gigabyte_mobo::argb_headers()[n - 1], color, 0, 32);
    }
}

/// On a board that has been given free, strip packets reach their strips and nothing else.
proof fn lemma_strips_reached(b: Board, steps: Seq<HidStepView>)
    requires
        strips_only(steps),
        b.frozen == 0x1B,
        b.waited >= 50,
    ensures
        ({
            let end = board_after_all(b, steps);
            &&& end == Board { strips: end.strips, ..b }
            &&& forall|h: u8|
                h == 0x58 || h == 0x59 || h == 0x62 || h == 0x63 ==> #[trigger] end.strips[h]
                    == mobo_laws::strip_after_all(b.strips[h], h, steps)
        }),
    decreases steps.len(),
{
    if steps.len() > 0 {
        let before = steps.drop_last();
        assert forall|i: int| 0 <= i < before.len() implies (#[trigger] before[i] matches
            HidStepView::Report(p) && p.len() == 64 && p[0] == 0xCC && (p[1] == 0x58 || p[1] == 0x59
            || p[1] == 0x62 || p[1] == 0x63)) by {
            assert(before[i] == steps[i]);
        }
        lemma_strips_reached(b, before);
        let mid = board_after_all(b, before);
        assert(steps[steps.len() - 1] == steps.last());
        if let HidStepView::Report(p) = steps.last() {
            reveal_with_fuel(bit, 5);
            assert(is_free(0x1B, p[1]));
            reveal_with_fuel(wire::le_value, 3);
            let two = p.subrange(2, 4);
            assert(two.skip(1) =~= seq![p[3]]);
            assert(two.skip(1).skip(1) =~= Seq::empty());
            assert(strip_with(mid.strips[p[1]], p) =~= mobo_laws::strip_after(
                mid.strips[p[1]],
                p[1],
                p,
            ));
        }
    }
}

/// Whatever a board showed before, a painting leaves every onboard zone of the product in the
/// static effect at full brightness with the color, committed, and the first 32 LEDs at each of
/// the four addressable headers in the color. Zones and LEDs beyond those are as they were, the
/// other driver has lost control, and the strips are 32 LEDs long.
pub proof fn law_painting_shows_the_color(b: Board, pid: u16, color: Color)
    ensures
        ({
            let end = board_after_all(b, gigabyte_mobo::paint_steps(pid, color));
            &&& !end.lamp_array
            &&& end.lengths == (0u8, 0u8)
            &&& forall|z: nat|
                z < zone_count(pid) ==> #[trigger] end.zones.dom().contains(z) && end.zones[z] == (
                Effect { kind: 0x01, brightness: 0xFF, dimmed: 0x00, color })
            &&& forall|z: nat|
                z >= zone_count(pid) ==> #[trigger] same_zone(end.zones, b.zones, z)
            &&& forall|h: u8|
                h == 0x58 || h == 0x59 || h == 0x62 || h == 0x63 ==> leds_show(
                    #[trigger] end.strips[h],
                    color,
                    0,
                    32,
                ) && others_stay(end.strips[h], b.strips[h], 0, 32)
        }),
{
    let steps = gigabyte_mobo::paint_steps(pid, color);
    let opening = steps.take(6);
    let strips = gigabyte_mobo::strips_steps(color, 4);
    assert(steps =~= opening + strips);
    lemma_two_rows(b, opening, strips);
    let mid = board_after_all(b, opening);
    lemma_opening(b, pid, color);
    lemma_steps_are_strips(color, 4);
    lemma_strips_reached(mid, strips);
    let end = board_after_all(b, steps);
    assert forall|h: u8| h == 0x58 || h == 0x59 || h == 0x62 || h == 0x63 implies leds_show(
        #[trigger] end.strips[h],
        color,
        0,
        32,
    ) && others_stay(end.strips[h], b.strips[h], 0, 32) by {
        let place: int = if h == 0x58 {
            0
        } else if h == 0x59 {
            1
        } else if h == 0x62 {
            2
        } else {
            3
        };
        assert(gigabyte_mobo::argb_headers()[place] == h);
        mobo_laws::lemma_strips(mid.strips[h], place, color, 4);
        lemma_painted_shows(mid.strips[h], color, 0, 32);
    }
}

/// A command with one argument; all else in it is zero.
pub open spec fn command(op: u8, argument: u8) -> Seq<u8> {
    Seq::new(
        64,
        |k: int|
            if k == 0 {
                0xCCu8
            } else if k == 1 {
                op
            } else if k == 2 {
                argument
            } else {
                0u8
            },
    )
}

/// A painting first takes the lamps from the other driver, then sets and commits the onboard
/// zones, then freezes the effects of the strips and gives the board 50 milliseconds for that,
/// then sets the length of the strips. Only then it fills them, with two packets for each, and it
/// does nothing else.
pub proof fn law_board_is_made_ready_for_the_strips(pid: u16, color: Color)
    ensures
        ({
            let steps = gigabyte_mobo::paint_steps(pid, color);
            &&& steps.len() == 14
            &&& steps[0] == HidStepView::Report(command(0x48, 0))
            &&& (steps[1] matches HidStepView::Report(p) && p[1] == 0x20)
            &&& (steps[2] matches HidStepView::Report(p) && p[1] == 0x28)
            &&& steps[3] == HidStepView::Report(command(0x32, 0x1B))
            &&& steps[4] == HidStepView::Pause(50)
            &&& steps[5] == HidStepView::Report(command(0x34, 0))
            &&& strips_only(steps.skip(6))
        }),
{
    let steps = gigabyte_mobo::paint_steps(pid, color);
    let strips = gigabyte_mobo::strips_steps(color, 4);
    assert(steps.skip(6) =~= strips);
    lemma_steps_are_strips(color, 4);
    assert(command(0x48, 0) =~= gigabyte_mobo::short_packet(0x48, 0, 0));
    assert(command(0x32, 0x1B) =~= gigabyte_mobo::short_packet(0x32, 0x1B, 0));
    assert(command(0x34, 0) =~= gigabyte_mobo::short_packet(0x34, 0, 0));
    reveal_with_fuel(gigabyte_mobo::strips_steps, 5);
    mobo_laws::law_packet_count(0x58, color, 0, 32);
    mobo_laws::law_packet_count(0x59, color, 0, 32);
    mobo_laws::law_packet_count(0x62, color, 0, 32);
    mobo_laws::law_packet_count(0x63, color, 0, 32);
}

/// The steps before the strips.
proof fn lemma_opening(b: Board, pid: u16, color: Color)
    ensures
        ({
            let end = board_after_all(b, gigabyte_mobo::paint_steps(pid, color).take(6));
            &&& !end.lamp_array
            &&& end.lengths == (0u8, 0u8)
            &&& end.frozen == 0x1B
            &&& end.waited >= 50
            &&& end.strips == b.strips
            &&& forall|z: nat|
                z < zone_count(pid) ==> #[trigger] end.zones.dom().contains(z) && end.zones[z] == (
                Effect { kind: 0x01, brightness: 0xFF, dimmed: 0x00, color })
            &&& forall|z: nat|
                z >= zone_count(pid) ==> #[trigger] same_zone(end.zones, b.zones, z)
        }),
{
    let s = gigabyte_mobo::paint_steps(pid, color).take(6);
    let p0 = gigabyte_mobo::short_packet(0x48, 0, 0);
    let p1 = gigabyte_mobo::effect_packet(pid, color);
    let p2 = gigabyte_mobo::apply_packet(pid);
    let p3 = gigabyte_mobo::short_packet(0x32, 0x1B, 0);
    let p5 = gigabyte_mobo::short_packet(0x34, 0, 0);
    let b0 = board_after(b, p0);
    let b1 = board_after(b0, p1);
    let b2 = board_after(b1, p2);
    let b3 = board_after(b2, p3);
    let b4 = Board { waited: b3.waited + 50, ..b3 };
    let b5 = board_after(b4, p5);
    reveal_with_fuel(board_after_all, 7);
    assert(s.drop_last() =~= s.take(5));
    assert(s.take(5).drop_last() =~= s.take(4));
    assert(s.take(4).drop_last() =~= s.take(3));
    assert(s.take(3).drop_last() =~= s.take(2));
    assert(s.take(2).drop_last() =~= s.take(1));
    assert(s.take(1).drop_last() =~= Seq::empty());
    assert(board_after_all(b, s) == b5);
    wire::lemma_le_bytes_len(gigabyte_mobo::zone_mask(pid), 4);
    reveal_with_fuel(wire::le_bytes, 5);
    let mask: nat = if pid == 0x5711 {
        0x7FF
    } else {
        0xFF
    };
    assert((p1[2] + 256 * p1[3] + 65536 * p1[4] + 16777216 * p1[5]) as nat == mask);
    assert((p2[2] + 256 * p2[3]) as nat == mask);
    assert forall|z: nat| bit(mask, z) == (z < zone_count(pid)) by {
        lemma_mask_bits(z);
    }
    assert forall|z: nat| z < zone_count(pid) implies #[trigger] b5.zones.dom().contains(z)
        && b5.zones[z] == (Effect { kind: 0x01, brightness: 0xFF, dimmed: 0x00, color }) by {
        assert(bit(mask, z));
        assert(b1.staged.dom().contains(z));
    }
    assert forall|z: nat| z >= zone_count(pid) implies #[trigger] same_zone(
        b5.zones,
        b.zones,
        z,
    ) by {
        assert(!bit(mask, z));
    }
}

/// The onboard zones of a product: sending its effect packet, then its commit, puts every one of
/// them in the static effect at full brightness with the color, on a board that no other driver
/// controls.
pub proof fn law_effect_reaches_every_zone(b: Board, pid: u16, color: Color, z: nat)
    requires
        !b.lamp_array,
        z < zone_count(pid),
    ensures
        ({
            let end = board_after(
                board_after(b, gigabyte_mobo::effect_packet(pid, color)),
                gigabyte_mobo::apply_packet(pid),
            );
            &&& end.zones.dom().contains(z)
            &&& end.zones[z] == (Effect { kind: 0x01, brightness: 0xFF, dimmed: 0x00, color })
        }),
{
    let p1 = gigabyte_mobo::effect_packet(pid, color);
    let p2 = gigabyte_mobo::apply_packet(pid);
    let b1 = board_after(b, p1);
    wire::lemma_le_bytes_len(gigabyte_mobo::zone_mask(pid), 4);
    reveal_with_fuel(wire::le_bytes, 5);
    lemma_mask_bits(z);
    let mask: nat = if pid == 0x5711 {
        0x7FF
    } else {
        0xFF
    };
    assert((p1[2] + 256 * p1[3] + 65536 * p1[4] + 16777216 * p1[5]) as nat == mask);
    assert((p2[2] + 256 * p2[3]) as nat == mask);
    assert(b1.staged.dom().contains(z));
}

/// What a packet does not use is zero: in a short packet all but the first four bytes, in an
/// effect packet all but its zones, effect, brightness and color, in a strip packet what lies
/// behind the colors.
pub proof fn law_unused_bytes_are_zero(
    pid: u16,
    color: Color,
    op: u8,
    x: u8,
    y: u8,
    header: u8,
    first: nat,
    count: nat,
    i: int,
)
    requires
        0 <= i < 64,
    ensures
        gigabyte_mobo::short_packet(op, x, y).len() == 64,
        gigabyte_mobo::short_packet(op, x, y)[i] == if i == 0 {
            0xCC
        } else if i == 1 {
            op
        } else if i == 2 {
            x
        } else if i == 3 {
            y
        } else {
            0
        },
        gigabyte_mobo::effect_packet(pid, color).len() == 64,
        4 <= i <= 10 || i == 13 || 17 <= i ==> gigabyte_mobo::effect_packet(pid, color)[i] == 0,
        gigabyte_mobo::strip_packet(header, color, first, count).len() == 64,
        5 + 3 * count <= i ==> gigabyte_mobo::strip_packet(header, color, first, count)[i] == 0,
{
    reveal_with_fuel(wire::le_bytes, 5);
}

} // verus!
