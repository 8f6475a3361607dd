//! Memory modules on a bus, and what the remap and detection procedure does to them.
//!
//! Modules that have not been moved all wait at the address 0x77. One of them moves when it is
//! told a slot number and then an address.

use crate::backends::diag_contents::{self, Contents};
use crate::backends::ene;
use crate::backends::remap;
use crate::pawnio::SmbusXfer;
use vstd::prelude::*;

verus! {

// ---------------------------------------------------------------------------
// The model
// ---------------------------------------------------------------------------

/// Which modules there are: how many wait at 0x77, the addresses at which something else
/// answers, the slot number told last, and the slots and addresses of the modules that have
/// moved, in order.
pub struct Modules {
    pub waiting: nat,
    pub taken: Set<u8>,
    pub slot: Option<u8>,
    pub moved: Seq<(u8, u8)>,
}

/// Something answers at an address.
pub open spec fn answers(m: Modules, addr: u8) -> bool {
    m.taken.contains(addr) || addr == 0x77 && m.waiting > 0
}

/// The modules after all that was sent. A byte stored at 0x77 in register 0x80F8 tells a slot
/// number; one stored in 0x80F9 moves a waiting module to the address that is half the byte.
pub open spec fn modules_after(m: Modules, sent: Seq<SmbusXfer>) -> Modules
    decreases sent.len(),
{
    if sent.len() == 0 {
        m
    } else {
        let before = modules_after(m, sent.drop_last());
        match sent.last() {
            SmbusXfer::WriteByte { addr, command, value } => {
                let reg = diag_contents::latched_at(sent.drop_last(), 0x77);
                if addr != 0x77 || command != 0x01 {
                    before
                } else if reg == 0x80F8 {
                    Modules { slot: Some(value), ..before }
                } else if reg == 0x80F9 && before.slot is Some && before.waiting > 0 {
                    Modules {
                        waiting: (before.waiting - 1) as nat,
                        taken: before.taken.insert(value / 2),
                        slot: None,
                        moved: before.moved.push((before.slot.unwrap(), value / 2)),
                    }
                } else {
                    before
                }
            },
            _ => before,
        }
    }
}

/// A bus with modules on it. Nothing but an answering address replies. Command 0x00 reads
/// something wherever there is an answer; command 0x81 reads the latched register; any other
/// command reads what `direct` says.
pub open spec fn memory_bus(
    m: Modules,
    direct: spec_fn(u8, u8) -> Option<u8>,
    contents: Contents,
) -> ene::Bus {
    |sent: Seq<SmbusXfer>|
        if sent.len() == 0 {
            Err::<u8, i32>(1i32)
        } else {
            let now = modules_after(m, sent.drop_last());
            match sent.last() {
                SmbusXfer::ReadByte { addr, command } => if !answers(now, addr) {
                    Err(1i32)
                } else if command == 0x00 {
                    Ok(0u8)
                } else if command == 0x81 {
                    read_reply(contents(addr, diag_contents::latched_at(sent, addr)))
                } else {
                    read_reply(direct(addr, command))
                },
                SmbusXfer::WriteByte { addr, .. } => if answers(now, addr) {
                    Ok(0u8)
                } else {
                    Err(1i32)
                },
                SmbusXfer::WriteWord { addr, .. } => if answers(now, addr) {
                    Ok(0u8)
                } else {
                    Err(1i32)
                },
            }
        }
}

/// The reply to a read.
pub open spec fn read_reply(value: Option<u8>) -> Result<u8, i32> {
    match value {
        Some(v) => Ok(v),
        None => Err(1i32),
    }
}

/// The addresses that a module can be given, in order.
pub open spec fn addresses() -> Seq<u8> {
    seq![
        0x39u8,
        0x3Au8,
        0x3Bu8,
        0x3Cu8,
        0x3Du8,
        0x4Fu8,
        0x66u8,
        0x67u8,
        0x70u8,
        0x71u8,
        0x72u8,
        0x73u8,
        0x74u8,
        0x75u8,
        0x76u8,
        0x77u8,
    ]
}

proof fn lemma_addresses()
    ensures
        remap::pool() == addresses(),
        addresses().len() == 16,
        addresses()[15] == 0x77,
        forall|i: int, j: int|
            0 <= i < j < 16 ==> #[trigger] addresses()[i] < #[trigger] addresses()[j],
        forall|i: int| 0 <= i < 15 ==> #[trigger] addresses()[i] < 0x77,
        forall|i: int|
            0 <= i < 16 ==> remap::eight_bit(#[trigger] addresses()[i]) / 2 == addresses()[i],
{
    assert(remap::pool() =~= addresses());
}

// ---------------------------------------------------------------------------
// The remap
// ---------------------------------------------------------------------------

/// A transaction that stores nothing moves nothing.
proof fn lemma_quiet(m: Modules, log: Seq<SmbusXfer>, x: SmbusXfer)
    requires
        !(x is WriteByte),
    ensures
        modules_after(m, log.push(x)) == modules_after(m, log),
{
    assert(log.push(x).drop_last() =~= log);
}

/// What is asked for answers or not.
proof fn lemma_ask(
    m: Modules,
    direct: spec_fn(u8, u8) -> Option<u8>,
    contents: Contents,
    log: Seq<SmbusXfer>,
    addr: u8,
)
    ensures
        ({
            let (sent, present) = ene::probe_run(memory_bus(m, direct, contents), log, addr);
            &&& present == answers(modules_after(m, log), addr)
            &&& modules_after(m, sent) == modules_after(m, log)
        }),
{
    let x = ene::ask(addr);
    assert(log.push(x).drop_last() =~= log);
    lemma_quiet(m, log, x);
}

/// The modules as they are kept while the remap runs.
spec fn in_order(m: Modules, now: Modules, slot: nat, next: nat) -> bool {
    &&& now.slot is None
    &&& now.moved.len() == slot
    &&& now.waiting + slot == m.waiting
    &&& !now.taken.contains(0x77)
    &&& forall|i: int| 0 <= i < slot ==> (#[trigger] now.moved[i]).0 == i
    &&& forall|i: int|
        0 <= i < slot ==> !m.taken.contains((#[trigger] now.moved[i]).1) && exists|k: int|
            0 <= k < next && k < 15 && now.moved[i].1 == #[trigger] addresses()[k]
    &&& forall|i: int, j: int|
        0 <= i < j < slot ==> (#[trigger] now.moved[i]).1 < (#[trigger] now.moved[j]).1
    &&& forall|k: int|
        0 <= k < next && k < 15 ==> now.taken.contains(#[trigger] addresses()[k])
    &&& forall|a: u8|
        now.taken.contains(a) <==> m.taken.contains(a) || exists|i: int|
            0 <= i < slot && (#[trigger] now.moved[i]).1 == a
}

proof fn lemma_search(
    m: Modules,
    direct: spec_fn(u8, u8) -> Option<u8>,
    contents: Contents,
    log: Seq<SmbusXfer>,
    next: nat,
)
    requires
        next <= 16,
        modules_after(m, log).waiting > 0,
    ensures
        ({
            let now = modules_after(m, log);
            let (sent, (next2, target)) = remap::free_target_run(
                memory_bus(m, direct, contents),
                log,
                next,
            );
            &&& modules_after(m, sent) == now
            &&& next <= next2 <= 16
            &&& target matches Some(t) ==> {
                &&& next < next2 <= 15
                &&& t == addresses()[next2 - 1]
                &&& !now.taken.contains(t)
                &&& forall|k: int|
                    next <= k < next2 - 1 ==> now.taken.contains(#[trigger] addresses()[k])
            }
            &&& target is None ==> forall|k: int|
                next <= k < 15 ==> now.taken.contains(#[trigger] addresses()[k])
        }),
    decreases 16 - next,
{
    lemma_addresses();
    if next < 16 {
        let a = addresses()[next as int];
        lemma_ask(m, direct, contents, log, a);
        let (sent, present) = ene::probe_run(memory_bus(m, direct, contents), log, a);
        if present {
            lemma_search(m, direct, contents, sent, next + 1);
        }
    }
}

/// A waiting module that is told a slot and an address moves there.
proof fn lemma_move(
    m: Modules,
    direct: spec_fn(u8, u8) -> Option<u8>,
    contents: Contents,
    log: Seq<SmbusXfer>,
    slot: u8,
    place: int,
)
    requires
        0 <= place < 15,
        modules_after(m, log).waiting > 0,
    ensures
        ({
            let bus = memory_bus(m, direct, contents);
            let now = modules_after(m, log);
            let t = addresses()[place];
            let (l2, r2) = ene::write_run(bus, log, 0x77, 0x80F8, slot);
            let (l4, r4) = ene::write_run(bus, l2, 0x77, 0x80F9, remap::eight_bit(t));
            &&& r2 is Ok
            &&& r4 is Ok
            &&& modules_after(m, l4) == (Modules {
                waiting: (now.waiting - 1) as nat,
                taken: now.taken.insert(t),
                slot: None,
                moved: now.moved.push((slot, t)),
            })
        }),
{
    lemma_addresses();
    let t = addresses()[place];
    let x1 = ene::latch(0x77, 0x80F8);
    let x2 = ene::store(0x77, slot);
    let x3 = ene::latch(0x77, 0x80F9);
    let x4 = ene::store(0x77, remap::eight_bit(t));
    let l1 = log.push(x1);
    let l2 = l1.push(x2);
    let l3 = l2.push(x3);
    let l4 = l3.push(x4);
    assert(l1.drop_last() =~= log);
    assert(l2.drop_last() =~= l1);
    assert(l3.drop_last() =~= l2);
    assert(l4.drop_last() =~= l3);
    lemma_quiet(m, log, x1);
    assert(diag_contents::latched_at(l1, 0x77) == 0x80F8);
    assert(modules_after(m, l2) == (Modules { slot: Some(slot), ..modules_after(m, log) }));
    lemma_quiet(m, l2, x3);
    assert(diag_contents::latched_at(l3, 0x77) == 0x80F9);
}

proof fn lemma_remap(
    m: Modules,
    direct: spec_fn(u8, u8) -> Option<u8>,
    contents: Contents,
    log: Seq<SmbusXfer>,
    slot: nat,
    next: nat,
)
    requires
        slot <= 8,
        next <= 16,
        in_order(m, modules_after(m, log), slot, next),
    ensures
        ({
            let (sent, done) = remap::remap_run(
                memory_bus(m, direct, contents),
                log,
                slot,
                next,
            );
            &&& done is Ok
            &&& all_moved(m, modules_after(m, sent))
        }),
    decreases 8 - slot,
{
    lemma_addresses();
    let bus = memory_bus(m, direct, contents);
    let now = modules_after(m, log);
    if slot == 8 {
        lemma_over(m, now, slot, next);
    } else {
        lemma_ask(m, direct, contents, log, 0x77);
        let (asked, present) = ene::probe_run(bus, log, 0x77);
        if present {
            lemma_search(m, direct, contents, asked, next);
            let (searched, (next2, target)) = remap::free_target_run(bus, asked, next);
            if let Some(t) = target {
                let place = next2 - 1;
                lemma_move(m, direct, contents, searched, slot as u8, place);
                let (l2, r2) = ene::write_run(bus, searched, 0x77, 0x80F8, slot as u8);
                let (l4, r4) = ene::write_run(bus, l2, 0x77, 0x80F9, remap::eight_bit(t));
                let then = modules_after(m, l4);
                assert(!m.taken.contains(t));
                assert forall|i: int| 0 <= i < slot + 1 implies !m.taken.contains(
                    (#[trigger] then.moved[i]).1,
                ) && exists|k: int|
                    0 <= k < next2 && k < 15 && then.moved[i].1 == #[trigger] addresses()[k] by {
                    if i < slot {
                        assert(then.moved[i] == now.moved[i]);
                        let k = choose|k: int|
                            0 <= k < next && k < 15 && now.moved[i].1
                                == #[trigger] addresses()[k];
                        assert(then.moved[i].1 == addresses()[k]);
                    } else {
                        assert(then.moved[i].1 == addresses()[place]);
                    }
                }
                assert forall|i: int, j: int| 0 <= i < j < slot + 1 implies (
                #[trigger] then.moved[i]).1 < (#[trigger] then.moved[j]).1 by {
                    assert(then.moved[i] == now.moved[i]);
                    if j < slot {
                        assert(then.moved[j] == now.moved[j]);
                    } else {
                        let k = choose|k: int|
                            0 <= k < next && k < 15 && now.moved[i].1
                                == #[trigger] addresses()[k];
                        assert(addresses()[k] < addresses()[place]);
                    }
                }
                assert forall|k: int| 0 <= k < next2 && k < 15 implies then.taken.contains(
                    #[trigger] addresses()[k],
                ) by {}
                assert forall|a: u8|
                    then.taken.contains(a) <==> m.taken.contains(a) || exists|i: int|
                        0 <= i < slot + 1 && (#[trigger] then.moved[i]).1 == a by {
                    if now.taken.contains(a) && !m.taken.contains(a) {
                        let i = choose|i: int| 0 <= i < slot && (#[trigger] now.moved[i]).1 == a;
                        assert(then.moved[i].1 == a);
                    }
                    if a == t {
                        assert(then.moved[slot as int].1 == a);
                    }
                    if exists|i: int| 0 <= i < slot + 1 && (#[trigger] then.moved[i]).1 == a {
                        let i = choose|i: int|
                            0 <= i < slot + 1 && (#[trigger] then.moved[i]).1 == a;
                        if i < slot {
                            assert(now.moved[i].1 == a);
                        }
                    }
                }
                assert forall|i: int| 0 <= i < slot + 1 implies (#[trigger] then.moved[i]).0 == i by {
                    if i < slot {
                        assert(then.moved[i] == now.moved[i]);
                    }
                }
                assert(in_order(m, then, slot + 1, next2));
                lemma_remap(m, direct, contents, l4, slot + 1, next2);
            } else {
                assert forall|k: int| 0 <= k < 15 implies now.taken.contains(
                    #[trigger] addresses()[k],
                ) by {}
                lemma_over(m, now, slot, next);
            }
        } else {
            lemma_over(m, now, slot, next);
        }
    }
}

/// When the remap is over, the modules have moved.
proof fn lemma_over(m: Modules, now: Modules, slot: nat, next: nat)
    requires
        slot <= 8,
        next <= 16,
        in_order(m, now, slot, next),
        now.waiting == 0 || slot == 8 || forall|k: int|
            0 <= k < 15 ==> now.taken.contains(#[trigger] addresses()[k]),
    ensures
        all_moved(m, now),
{
    lemma_addresses();
    assert forall|i: int, k: int|
        0 <= i < now.moved.len() && 0 <= k < 16 && #[trigger] addresses()[k] < (
        #[trigger] now.moved[i]).1 implies now.taken.contains(addresses()[k]) by {
        let j = choose|j: int|
            0 <= j < next && j < 15 && now.moved[i].1 == #[trigger] addresses()[j];
        if k >= j {
            assert(k == j || addresses()[j] < addresses()[k]);
        }
    }
    assert forall|i: int| 0 <= i < slot implies given(m, #[trigger] now.moved[i], i) by {
        let k = choose|k: int|
            0 <= k < next && k < 15 && now.moved[i].1 == #[trigger] addresses()[k];
        assert(addresses().contains(addresses()[k]));
    }
}

/// A module was given its slot number, counted from zero, and an address at which nothing
/// answered before.
pub open spec fn given(m: Modules, slot_and_address: (u8, u8), i: int) -> bool {
    &&& slot_and_address.0 == i
    &&& addresses().contains(slot_and_address.1)
    &&& slot_and_address.1 != 0x77
    &&& !m.taken.contains(slot_and_address.1)
}

/// The waiting modules have moved, as far as they can: each to an address of its own, the lowest
/// that was free; none waits any more, or eight have moved, or no address is free.
pub open spec fn all_moved(m: Modules, end: Modules) -> bool {
    &&& end.waiting + end.moved.len() == m.waiting
    &&& end.moved.len() <= 8
    &&& forall|i: int| 0 <= i < end.moved.len() ==> given(m, #[trigger] end.moved[i], i)
    &&& forall|i: int, j: int|
        0 <= i < j < end.moved.len() ==> (#[trigger] end.moved[i]).1 < (#[trigger] end.moved[j]).1
    &&& forall|i: int, k: int|
        0 <= i < end.moved.len() && 0 <= k < 16 && #[trigger] addresses()[k] < (
        #[trigger] end.moved[i]).1 ==> end.taken.contains(addresses()[k])
    &&& forall|a: u8|
        end.taken.contains(a) <==> m.taken.contains(a) || exists|i: int|
            0 <= i < end.moved.len() && (#[trigger] end.moved[i]).1 == a
    &&& end.waiting == 0 || end.moved.len() == 8 || forall|k: int|
        0 <= k < 15 ==> end.taken.contains(#[trigger] addresses()[k])
}

// ---------------------------------------------------------------------------
// The detection
// ---------------------------------------------------------------------------

/// The name of the maker whose modules are passed over.
pub open spec fn spells_micron(contents: Contents, addr: u8) -> bool {
    &&& contents(addr, 0x1030) == Some(0x4Du8)
    &&& contents(addr, 0x1031) == Some(0x69u8)
    &&& contents(addr, 0x1032) == Some(0x63u8)
    &&& contents(addr, 0x1033) == Some(0x72u8)
    &&& contents(addr, 0x1034) == Some(0x6Fu8)
    &&& contents(addr, 0x1035) == Some(0x6Eu8)
}

/// A usable controller: the bytes from 0xA0 on count up from zero, and sixteen bytes of the
/// maker's name can be read and do not begin with `Micron`.
pub open spec fn is_controller(
    direct: spec_fn(u8, u8) -> Option<u8>,
    contents: Contents,
    addr: u8,
) -> bool {
    &&& forall|k: int| 0 <= k < 16 ==> #[trigger] direct(addr, (0xA0 + k) as u8) == Some(k as u8)
    &&& forall|k: int| 0 <= k < 16 ==> (#[trigger] contents(addr, (0x1030 + k) as u16)) is Some
    &&& !spells_micron(contents, addr)
}

proof fn lemma_pattern(
    m: Modules,
    direct: spec_fn(u8, u8) -> Option<u8>,
    contents: Contents,
    log: Seq<SmbusXfer>,
    addr: u8,
    offset: nat,
)
    requires
        answers(modules_after(m, log), addr),
        offset <= 16,
    ensures
        ({
            let (sent, shown) = remap::pattern_run(
                memory_bus(m, direct, contents),
                log,
                addr,
                offset,
            );
            &&& modules_after(m, sent) == modules_after(m, log)
            &&& shown == forall|k: int|
                offset <= k < 16 ==> #[trigger] direct(addr, (0xA0 + k) as u8) == Some(k as u8)
        }),
    decreases 16 - offset,
{
    if offset < 16 {
        let x = SmbusXfer::ReadByte { addr, command: (0xA0 + offset) as u8 };
        let sent = log.push(x);
        assert(sent.drop_last() =~= log);
        lemma_quiet(m, log, x);
        let reply = memory_bus(m, direct, contents)(sent);
        assert(reply == read_reply(direct(addr, (0xA0 + offset) as u8)));
        if reply == Ok::<u8, i32>(offset as u8) {
            lemma_pattern(m, direct, contents, sent, addr, offset + 1);
        } else {
            assert(direct(addr, (0xA0 + offset as int) as u8) != Some(offset as u8));
        }
    }
}

proof fn lemma_read(
    m: Modules,
    direct: spec_fn(u8, u8) -> Option<u8>,
    contents: Contents,
    log: Seq<SmbusXfer>,
    addr: u8,
    reg: u16,
)
    requires
        answers(modules_after(m, log), addr),
    ensures
        ({
            let (sent, reply) = ene::read_run(memory_bus(m, direct, contents), log, addr, reg);
            &&& modules_after(m, sent) == modules_after(m, log)
            &&& reply == read_reply(contents(addr, reg))
        }),
{
    let one = log.push(ene::latch(addr, reg));
    let two = one.push(ene::fetch(addr));
    assert(one.drop_last() =~= log);
    assert(two.drop_last() =~= one);
    lemma_quiet(m, log, ene::latch(addr, reg));
    lemma_quiet(m, one, ene::fetch(addr));
    assert(diag_contents::latched_at(one, addr) == reg);
    assert(diag_contents::latched_at(two, addr) == diag_contents::latched_at(one, addr));
}

proof fn lemma_name(
    m: Modules,
    direct: spec_fn(u8, u8) -> Option<u8>,
    contents: Contents,
    log: Seq<SmbusXfer>,
    addr: u8,
    got: Seq<u8>,
)
    requires
        answers(modules_after(m, log), addr),
        got.len() <= 16,
        forall|k: int|
            0 <= k < got.len() ==> contents(addr, (0x1030 + k) as u16) == Some(#[trigger] got[k]),
    ensures
        ({
            let (sent, (name, failed)) = ene::block_run(
                memory_bus(m, direct, contents),
                log,
                addr,
                0x1030,
                16,
                got,
            );
            &&& modules_after(m, sent) == modules_after(m, log)
            &&& name.len() <= 16
            &&& forall|k: int|
                0 <= k < name.len() ==> contents(addr, (0x1030 + k) as u16) == Some(
                    #[trigger] name[k],
                )
            &&& failed is None <==> name.len() == 16
            &&& failed is Some ==> contents(addr, (0x1030 + name.len()) as u16) is None
        }),
    decreases 16 - got.len(),
{
    if got.len() < 16 {
        let reg = ene::block_reg(0x1030, got.len());
        assert(reg == (0x1030 + got.len()) as u16);
        lemma_read(m, direct, contents, log, addr, reg);
        let (sent, reply) = ene::read_run(memory_bus(m, direct, contents), log, addr, reg);
        if let Ok(value) = reply {
            lemma_name(m, direct, contents, sent, addr, got.push(value));
        }
    }
}

/// An address is found to have a controller exactly when something answers there and it is one.
proof fn lemma_controller(
    m: Modules,
    direct: spec_fn(u8, u8) -> Option<u8>,
    contents: Contents,
    log: Seq<SmbusXfer>,
    addr: u8,
)
    ensures
        ({
            let (sent, usable) = remap::controller_run(
                memory_bus(m, direct, contents),
                log,
                addr,
            );
            &&& modules_after(m, sent) == modules_after(m, log)
            &&& usable == (answers(modules_after(m, log), addr) && is_controller(
                direct,
                contents,
                addr,
            ))
        }),
{
    let bus = memory_bus(m, direct, contents);
    lemma_ask(m, direct, contents, log, addr);
    let (asked, present) = ene::probe_run(bus, log, addr);
    if present {
        lemma_pattern(m, direct, contents, asked, addr, 0);
        let (checked, shown) = remap::pattern_run(bus, asked, addr, 0);
        if shown {
            lemma_name(m, direct, contents, checked, addr, Seq::empty());
            let (sent, (name, failed)) = ene::block_run(
                bus,
                checked,
                addr,
                0x1030,
                16,
                Seq::empty(),
            );
            if failed is Some {
                let n = name.len() as int;
                assert(contents(addr, (0x1030 + n) as u16) is None);
            } else {
                assert forall|k: int| 0 <= k < 16 implies (#[trigger] contents(
                    addr,
                    (0x1030 + k) as u16,
                )) is Some by {
                    assert(contents(addr, (0x1030 + k) as u16) == Some(name[k]));
                }
                assert(contents(addr, (0x1030 + 0int) as u16) == Some(name[0]));
                assert(contents(addr, (0x1030 + 1int) as u16) == Some(name[1]));
                assert(contents(addr, (0x1030 + 2int) as u16) == Some(name[2]));
                assert(contents(addr, (0x1030 + 3int) as u16) == Some(name[3]));
                assert(contents(addr, (0x1030 + 4int) as u16) == Some(name[4]));
                assert(contents(addr, (0x1030 + 5int) as u16) == Some(name[5]));
                let six = name.take(6);
                if spells_micron(contents, addr) {
                    assert(six =~= remap::micron());
                } else if six == remap::micron() {
                    assert(six[0] == name[0] && six[1] == name[1] && six[2] == name[2] && six[3]
                        == name[3] && six[4] == name[4] && six[5] == name[5]);
                }
            }
        }
    }
}

/// The addresses from place `index` on that have a controller, behind those found already.
spec fn usable_from(
    now: Modules,
    direct: spec_fn(u8, u8) -> Option<u8>,
    contents: Contents,
    index: nat,
) -> Seq<u8> {
    addresses().skip(index as int).filter(
        |a: u8| answers(now, a) && is_controller(direct, contents, a),
    )
}

proof fn lemma_detect(
    m: Modules,
    direct: spec_fn(u8, u8) -> Option<u8>,
    contents: Contents,
    log: Seq<SmbusXfer>,
    index: nat,
    found: Seq<u8>,
)
    requires
        index <= 16,
    ensures
        remap::detect_run(memory_bus(m, direct, contents), log, index, found).1 == found
            + usable_from(modules_after(m, log), direct, contents, index),
    decreases 16 - index,
{
    lemma_addresses();
    reveal(Seq::filter);
    let bus = memory_bus(m, direct, contents);
    let now = modules_after(m, log);
    let pred = |a: u8| answers(now, a) && is_controller(direct, contents, a);
    let rest = addresses().skip(index as int);
    if index < 16 {
        let a = addresses()[index as int];
        lemma_controller(m, direct, contents, log, a);
        let (sent, usable) = remap::controller_run(bus, log, a);
        let more = if usable {
            found.push(a)
        } else {
            found
        };
        lemma_detect(m, direct, contents, sent, index + 1, more);
        let later = addresses().skip(index + 1int);
        assert(rest =~= seq![a] + later);
        Seq::filter_distributes_over_add(seq![a], later, pred);
        assert(seq![a].drop_last() =~= Seq::empty());
        assert(Seq::<u8>::empty().filter(pred) =~= Seq::empty());
        assert(seq![a].filter(pred) =~= if usable {
            seq![a]
        } else {
            Seq::empty()
        });
        assert(found + rest.filter(pred) =~= more + later.filter(pred));
    } else {
        assert(rest =~= Seq::empty());
        assert(found + rest.filter(pred) =~= found);
    }
}

/// Whatever modules there are and whatever else answers on the bus, as long as nothing but
/// modules is at 0x77: the procedure does not fail. It moves the waiting modules, each to an
/// address of its own, the lowest that is free, and numbers their slots from zero on, until none
/// waits any more, or eight have moved, or no address is free. It finds exactly the addresses at
/// which there is a usable controller then, in ascending order.
pub proof fn law_every_module_is_moved_and_found(
    m: Modules,
    direct: spec_fn(u8, u8) -> Option<u8>,
    contents: Contents,
)
    requires
        m.slot is None,
        m.moved.len() == 0,
        !m.taken.contains(0x77),
    ensures
        ({
            let bus = memory_bus(m, direct, contents);
            let sent = remap::remap_run(bus, Seq::empty(), 0, 0).0;
            let end = modules_after(m, sent);
            &&& all_moved(m, end)
            &&& remap::remap_and_detect_run(bus).1 == Ok::<Seq<u8>, i32>(
                addresses().filter(
                    |a: u8| answers(end, a) && is_controller(direct, contents, a),
                ),
            )
        }),
{
    let bus = memory_bus(m, direct, contents);
    let start = Seq::<SmbusXfer>::empty();
    assert(modules_after(m, start) == m);
    assert(in_order(m, m, 0, 0));
    lemma_remap(m, direct, contents, start, 0, 0);
    let (sent, done) = remap::remap_run(bus, start, 0, 0);
    lemma_detect(m, direct, contents, sent, 0, Seq::empty());
    let end = modules_after(m, sent);
    assert(addresses().skip(0) =~= addresses());
    let all = usable_from(end, direct, contents, 0);
    assert(Seq::empty() + all =~= all);
}

} // verus!
