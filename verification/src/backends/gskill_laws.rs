//! What a painted DIMM shows, and which devices there are for controllers.

use crate::backend::{Backend, Color, ZoneView};
use crate::backends::ene;
use crate::backends::gskill_ddr5::{self, GSkillDdr5};
use crate::pawnio::SmbusXfer;
use crate::text;
use vstd::prelude::*;

verus! {

// ---------------------------------------------------------------------------
// A model of the lights
// ---------------------------------------------------------------------------

/// A controller and its lights: the register number it has latched, the bytes its registers
/// hold, and what the lights follow, which is what the registers held when they were last
/// committed.
pub struct Lights {
    pub latched: u16,
    pub regs: Map<u16, u8>,
    pub shown: Map<u16, u8>,
}

/// What a transaction does to the controller at an address. Command 0x00 latches a register
/// number, the high byte first on the wire; command 0x01 stores a byte in the latched register.
/// Storing 0x01 in register 0x80A0 commits.
pub open spec fn lights_after(l: Lights, addr: u8, x: SmbusXfer) -> Lights {
    match x {
        SmbusXfer::WriteWord { addr: a, command, word } => if a == addr && command == 0x00 {
            Lights { latched: ((word % 256) * 256 + word / 256) as u16, ..l }
        } else {
            l
        },
        SmbusXfer::WriteByte { addr: a, command, value } => if a == addr && command == 0x01 {
            let regs = l.regs.insert(l.latched, value);
            if l.latched == 0x80A0 && value == 0x01 {
                Lights { regs, shown: regs, ..l }
            } else {
                Lights { regs, ..l }
            }
        } else {
            l
        },
        SmbusXfer::ReadByte { .. } => l,
    }
}

/// What a row of transactions does to the controller at an address.
pub open spec fn lights_after_all(l: Lights, addr: u8, list: Seq<SmbusXfer>) -> Lights
    decreases list.len(),
{
    if list.len() == 0 {
        l
    } else {
        lights_after(lights_after_all(l, addr, list.drop_last()), addr, list.last())
    }
}

/// The register is known to hold the byte.
pub open spec fn holds(regs: Map<u16, u8>, reg: int, value: u8) -> bool {
    regs.dom().contains(reg as u16) && regs[reg as u16] == value
}

/// The three registers of an LED hold a color: red, blue, green.
pub open spec fn led_holds(regs: Map<u16, u8>, base: int, color: Color) -> bool {
    &&& holds(regs, base, color.r)
    &&& holds(regs, base + 1, color.b)
    &&& holds(regs, base + 2, color.g)
}

/// A register holds in one map what it holds in the other.
pub open spec fn same_at(a: Map<u16, u8>, b: Map<u16, u8>, reg: u16) -> bool {
    &&& a.dom().contains(reg) == b.dom().contains(reg)
    &&& a.dom().contains(reg) ==> a[reg] == b[reg]
}

/// The lights show the static effect in one color: direct mode is off, the mode is static, and
/// every LED of both register banks has the color.
pub open spec fn shows(l: Lights, color: Color) -> bool {
    &&& holds(l.shown, 0x8020, 0x00)
    &&& holds(l.shown, 0x8021, 0x01)
    &&& forall|led: int| 0 <= led < 5 ==> #[trigger] led_holds(l.shown, 0x8010 + 3 * led, color)
    &&& forall|led: int| 0 <= led < 10 ==> #[trigger] led_holds(l.shown, 0x8160 + 3 * led, color)
}

proof fn lemma_two_rows(l: Lights, addr: u8, a: Seq<SmbusXfer>, b: Seq<SmbusXfer>)
    ensures
        lights_after_all(l, addr, a + b) == lights_after_all(
            lights_after_all(l, addr, a),
            addr,
            b,
        ),
    decreases b.len(),
{
    if b.len() == 0 {
        assert(a + b =~= a);
    } else {
        lemma_two_rows(l, addr, a, b.drop_last());
        assert((a + b).drop_last() =~= a + b.drop_last());
    }
}

/// Writing a register stores the byte in that register of the controller at the address, and
/// commits exactly where the register is 0x80A0 and the byte 0x01. A controller at another
/// address takes no notice.
pub proof fn law_register_write_lands(l: Lights, addr: u8, other: u8, reg: u16, value: u8)
    ensures
        ({
            let end = lights_after_all(l, other, ene::write_xfers(addr, reg, value));
            if addr == other {
                let regs = l.regs.insert(reg, value);
                &&& end.regs == regs
                &&& end.shown == if reg == 0x80A0 && value == 0x01 {
                    regs
                } else {
                    l.shown
                }
            } else {
                end == l
            }
        }),
{
    reveal_with_fuel(lights_after_all, 3);
    let list = ene::write_xfers(addr, reg, value);
    assert(list.drop_last() =~= seq![list[0]]);
    assert(list.drop_last().drop_last() =~= Seq::empty());
}

/// Writing a block of colors gives every LED of the block its color, as red, blue, green,
/// changes no other register, and commits nothing.
pub proof fn law_color_block_lands(l: Lights, addr: u8, start: nat, color: Color, leds: nat)
    requires
        start + 3 * leds <= 0x1_0000,
        start > 0x80A0 || start + 3 * leds <= 0x80A0,
    ensures
        ({
            let end = lights_after_all(
                l,
                addr,
                gskill_ddr5::block_xfers(addr, start, color, leds),
            );
            &&& forall|led: int|
                0 <= led < leds ==> #[trigger] led_holds(end.regs, start + 3 * led, color)
            &&& forall|reg: u16|
                !(start <= reg < start + 3 * leds) ==> #[trigger] same_at(end.regs, l.regs, reg)
            &&& end.shown == l.shown
        }),
    decreases leds,
{
    if leds > 0 {
        let less = (leds - 1) as nat;
        law_color_block_lands(l, addr, start, color, less);
        let before = gskill_ddr5::block_xfers(addr, start, color, less);
        let base = (start + 3 * less) as nat;
        let w1 = ene::write_xfers(addr, base as u16, color.r);
        let w2 = ene::write_xfers(addr, (base + 1) as u16, color.b);
        let w3 = ene::write_xfers(addr, (base + 2) as u16, color.g);
        let l0 = lights_after_all(l, addr, before);
        let l1 = lights_after_all(l0, addr, w1);
        let l2 = lights_after_all(l1, addr, w2);
        lemma_two_rows(l, addr, before, w1 + w2 + w3);
        lemma_two_rows(l0, addr, w1 + w2, w3);
        lemma_two_rows(l0, addr, w1, w2);
        law_register_write_lands(l0, addr, addr, base as u16, color.r);
        law_register_write_lands(l1, addr, addr, (base + 1) as u16, color.b);
        law_register_write_lands(l2, addr, addr, (base + 2) as u16, color.g);
        let end = lights_after_all(l, addr, gskill_ddr5::block_xfers(addr, start, color, leds));
        assert forall|led: int| 0 <= led < leds implies #[trigger] led_holds(
            end.regs,
            start + 3 * led,
            color,
        ) by {
            if led < less {
                assert(led_holds(l0.regs, start + 3 * led, color));
            }
        }
        assert forall|reg: u16| !(start <= reg < start + 3 * leds) implies #[trigger] same_at(
            end.regs,
            l.regs,
            reg,
        ) by {
            assert(same_at(l0.regs, l.regs, reg));
        }
    }
}

/// A register that a painting writes.
pub open spec fn is_painted(reg: u16) -> bool {
    ||| reg == 0x8020
    ||| reg == 0x8021
    ||| reg == 0x80A0
    ||| 0x8010 <= reg < 0x801F
    ||| 0x8160 <= reg < 0x817E
}

/// Whatever a DIMM showed before, a painting leaves its lights showing the color: all that the
/// painting writes is in its place before it is committed, nothing is left uncommitted, and
/// every other register is as it was. A DIMM at another address shows what it showed.
pub proof fn law_painting_shows_the_color(l: Lights, addr: u8, other: u8, color: Color)
    ensures
        ({
            let end = lights_after_all(l, addr, gskill_ddr5::paint_xfers(addr, color));
            &&& shows(end, color)
            &&& end.regs == end.shown
            &&& forall|reg: u16| !is_painted(reg) ==> #[trigger] same_at(end.regs, l.regs, reg)
        }),
        addr != other ==> lights_after_all(l, other, gskill_ddr5::paint_xfers(addr, color)) == l,
{
    let w1 = ene::write_xfers(addr, 0x8020, 0x00);
    let w2 = ene::write_xfers(addr, 0x8021, 0x01);
    let b1 = gskill_ddr5::block_xfers(addr, 0x8010, color, 5);
    let b2 = gskill_ddr5::block_xfers(addr, 0x8160, color, 10);
    let w3 = ene::write_xfers(addr, 0x80A0, 0x01);
    assert(gskill_ddr5::paint_xfers(addr, color) == w1 + w2 + b1 + b2 + w3);
    lemma_two_rows(l, addr, w1 + w2 + b1 + b2, w3);
    lemma_two_rows(l, addr, w1 + w2 + b1, b2);
    lemma_two_rows(l, addr, w1 + w2, b1);
    lemma_two_rows(l, addr, w1, w2);
    let l1 = lights_after_all(l, addr, w1);
    let l2 = lights_after_all(l1, addr, w2);
    let l3 = lights_after_all(l2, addr, b1);
    let l4 = lights_after_all(l3, addr, b2);
    law_register_write_lands(l, addr, addr, 0x8020, 0x00);
    law_register_write_lands(l1, addr, addr, 0x8021, 0x01);
    law_color_block_lands(l2, addr, 0x8010, color, 5);
    law_color_block_lands(l3, addr, 0x8160, color, 10);
    law_register_write_lands(l4, addr, addr, 0x80A0, 0x01);
    let end = lights_after_all(l, addr, gskill_ddr5::paint_xfers(addr, color));
    assert(same_at(l3.regs, l2.regs, 0x8020) && same_at(l4.regs, l3.regs, 0x8020));
    assert(same_at(l3.regs, l2.regs, 0x8021) && same_at(l4.regs, l3.regs, 0x8021));
    assert forall|led: int| 0 <= led < 5 implies #[trigger] led_holds(
        end.shown,
        0x8010 + 3 * led,
        color,
    ) by {
        let base = 0x8010 + 3 * led;
        assert(led_holds(l3.regs, base, color));
        assert(same_at(l4.regs, l3.regs, base as u16));
        assert(same_at(l4.regs, l3.regs, (base + 1) as u16));
        assert(same_at(l4.regs, l3.regs, (base + 2) as u16));
    }
    assert forall|led: int| 0 <= led < 10 implies #[trigger] led_holds(
        end.shown,
        0x8160 + 3 * led,
        color,
    ) by {
        assert(led_holds(l4.regs, 0x8160 + 3 * led, color));
    }
    assert forall|reg: u16| !is_painted(reg) implies #[trigger] same_at(end.regs, l.regs, reg) by {
        assert(same_at(l3.regs, l2.regs, reg));
        assert(same_at(l4.regs, l3.regs, reg));
    }
    if addr != other {
        lemma_two_rows(l, other, w1 + w2 + b1 + b2, w3);
        lemma_two_rows(l, other, w1 + w2 + b1, b2);
        lemma_two_rows(l, other, w1 + w2, b1);
        lemma_two_rows(l, other, w1, w2);
        law_register_write_lands(l, addr, other, 0x8020, 0x00);
        law_register_write_lands(l, addr, other, 0x8021, 0x01);
        lemma_block_elsewhere(l, addr, other, 0x8010, color, 5);
        lemma_block_elsewhere(l, addr, other, 0x8160, color, 10);
        law_register_write_lands(l, addr, other, 0x80A0, 0x01);
    }
}

proof fn lemma_block_elsewhere(
    l: Lights,
    addr: u8,
    other: u8,
    start: nat,
    color: Color,
    leds: nat,
)
    requires
        addr != other,
    ensures
        lights_after_all(l, other, gskill_ddr5::block_xfers(addr, start, color, leds)) == l,
    decreases leds,
{
    if leds > 0 {
        let less = (leds - 1) as nat;
        lemma_block_elsewhere(l, addr, other, start, color, less);
        let before = gskill_ddr5::block_xfers(addr, start, color, less);
        let base = (start + 3 * less) as nat;
        let w1 = ene::write_xfers(addr, base as u16, color.r);
        let w2 = ene::write_xfers(addr, (base + 1) as u16, color.b);
        let w3 = ene::write_xfers(addr, (base + 2) as u16, color.g);
        lemma_two_rows(l, other, before, w1 + w2 + w3);
        lemma_two_rows(l, other, w1 + w2, w3);
        lemma_two_rows(l, other, w1, w2);
        law_register_write_lands(l, addr, other, base as u16, color.r);
        law_register_write_lands(l, addr, other, (base + 1) as u16, color.b);
        law_register_write_lands(l, addr, other, (base + 2) as u16, color.g);
    }
}

/// At an even place a register of the chip is latched, at an odd one a byte is stored.
pub open spec fn latches_and_stores(list: Seq<SmbusXfer>, addr: u8) -> bool {
    &&& list.len() % 2 == 0
    &&& forall|i: int|
        0 <= i < list.len() ==> match #[trigger] list[i] {
            SmbusXfer::WriteWord { addr: a, command, .. } => a == addr && command == 0x00 && i % 2
                == 0,
            SmbusXfer::WriteByte { addr: a, command, .. } => a == addr && command == 0x01 && i % 2
                == 1,
            SmbusXfer::ReadByte { .. } => false,
        }
}

proof fn lemma_block_in_pairs(addr: u8, start: nat, color: Color, leds: nat)
    ensures
        latches_and_stores(gskill_ddr5::block_xfers(addr, start, color, leds), addr),
        gskill_ddr5::block_xfers(addr, start, color, leds).len() == 6 * leds,
    decreases leds,
{
    if leds > 0 {
        lemma_block_in_pairs(addr, start, color, (leds - 1) as nat);
    }
}

/// A painting is 48 register writes, one after another, and nothing else: the first turns direct
/// mode off, the second sets the mode, the last commits.
pub proof fn law_painting_is_a_row_of_writes(addr: u8, color: Color)
    ensures
        ({
            let list = gskill_ddr5::paint_xfers(addr, color);
            &&& list.len() == 96
            &&& latches_and_stores(list, addr)
            &&& list[0] == SmbusXfer::WriteWord { addr, command: 0x00, word: 0x2080 }
            &&& list[1] == SmbusXfer::WriteByte { addr, command: 0x01, value: 0x00 }
            &&& list[2] == SmbusXfer::WriteWord { addr, command: 0x00, word: 0x2180 }
            &&& list[3] == SmbusXfer::WriteByte { addr, command: 0x01, value: 0x01 }
            &&& list[94] == SmbusXfer::WriteWord { addr, command: 0x00, word: 0xA080 }
            &&& list[95] == SmbusXfer::WriteByte { addr, command: 0x01, value: 0x01 }
        }),
{
    lemma_block_in_pairs(addr, 0x8010, color, 5);
    lemma_block_in_pairs(addr, 0x8160, color, 10);
}

/// A painting that meets no failure on the bus leaves the lights showing the color.
pub proof fn law_sent_painting_shows_the_color(bus: ene::Bus, l: Lights, addr: u8, color: Color)
    requires
        ene::list_run(bus, Seq::empty(), gskill_ddr5::paint_xfers(addr, color), 0).1 is None,
    ensures
        shows(
            lights_after_all(
                l,
                addr,
                ene::list_run(bus, Seq::empty(), gskill_ddr5::paint_xfers(addr, color), 0).0,
            ),
            color,
        ),
{
    let list = gskill_ddr5::paint_xfers(addr, color);
    ene::law_list_is_sent_up_to_a_failure(bus, Seq::empty(), list, 0);
    assert(Seq::empty() + list.subrange(0, list.len() as int) =~= list);
    law_painting_shows_the_color(l, addr, addr, color);
}

// ---------------------------------------------------------------------------
// Devices
// ---------------------------------------------------------------------------

/// There is one device for each controller, in order, with the controller's address as two
/// digits in its key; none where the bus cannot be reached. The plan for a listed device goes to
/// the address of its controller and leaves the lights there showing the color.
pub proof fn law_every_controller_is_a_device(
    b: &GSkillDdr5,
    addrs: Vec<u8>,
    i: int,
    l: Lights,
    color: Color,
)
    requires
        0 <= i < addrs@.len(),
    ensures
        b.devices_in(None).len() == 0,
        b.devices_in(Some(addrs)).len() == addrs@.len(),
        ({
            let d = b.devices_in(Some(addrs))[i];
            &&& d.id.backend == "gskill-ddr5"@
            &&& d.id.key == "ene-0x"@ + text::hex_text(addrs@[i] as nat, 2, false)
            &&& d.vendor == "G.Skill"@
            &&& d.name == "G.Skill DDR5 RGB (ENE)"@
            &&& d.zones == seq![ZoneView { name: "all"@, led_count: 0 }]
            &&& b.plan_for(d.id.key, color) is Some
            &&& b.plan_for(d.id.key, color).unwrap().addr == addrs@[i]
            &&& shows(
                lights_after_all(l, addrs@[i], b.plan_for(d.id.key, color).unwrap().xfers),
                color,
            )
        }),
{
    gskill_ddr5::law_ene_key_reads_back(addrs@[i]);
    law_painting_shows_the_color(l, addrs@[i], addrs@[i], color);
}

/// What stands behind the first six characters, without one plus sign in front.
pub open spec fn behind_plus(key: Seq<char>) -> Seq<char> {
    if key[6] == '+' {
        key.skip(7)
    } else {
        key.skip(6)
    }
}

/// A key stands for an address exactly if it is `ene-0x` and a number of one or more hexadecimal
/// digits of either case, with a plus sign in front or not, of at most 255; then for that one.
pub proof fn law_other_keys_are_refused(key: Seq<char>)
    ensures
        ({
            let digits = behind_plus(key);
            gskill_ddr5::key_address(key) == if key.len() > 6 && key.take(6) == "ene-0x"@ && digits.len() > 0
                && (forall|k: int|
                0 <= k < digits.len() ==> text::digit_value(#[trigger] digits[k]) < 16)
                && text::number_value(digits, 16) <= 255 {
                Some(text::number_value(digits, 16))
            } else {
                None
            }
        }),
{
    reveal_strlit("ene-0x");
    if key.len() > 6 {
        let rest = key.skip(6);
        assert(rest[0] == key[6]);
        assert(rest.skip(1) =~= key.skip(7));
        assert(behind_plus(key) == text::without_plus(rest));
    }
}

/// Every key that stands for an address, however it is written, is painted there.
pub proof fn law_good_keys_are_painted(b: &GSkillDdr5, key: Seq<char>, l: Lights, color: Color)
    ensures
        b.plan_for(key, color) is Some <==> gskill_ddr5::key_address(key) is Some,
        b.plan_for(key, color) matches Some(plan) ==> {
            &&& gskill_ddr5::key_address(key) == Some(plan.addr as nat)
            &&& shows(lights_after_all(l, plan.addr, plan.xfers), color)
        },
{
    if let Some(plan) = b.plan_for(key, color) {
        law_painting_shows_the_color(l, plan.addr, plan.addr, color);
    }
}

} // verus!
