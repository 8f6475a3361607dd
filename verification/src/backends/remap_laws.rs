//! What the remap and detection procedure keeps to, on every bus.

use crate::backends::ene;
use crate::backends::remap;
use crate::pawnio::SmbusXfer;
use vstd::prelude::*;

verus! {

// ---------------------------------------------------------------------------
// Stores
// ---------------------------------------------------------------------------

/// Every byte that was stored went to the default address.
pub open spec fn stores_at_default(log: Seq<SmbusXfer>) -> bool {
    forall|i: int|
        0 <= i < log.len() ==> (#[trigger] log[i] matches SmbusXfer::WriteByte { addr, command, .. }
            ==> addr == remap::ENE_DEFAULT_ADDR && command == ene::CMD_STORE)
}

/// The longer log goes on from the shorter one, and nothing was stored on the way.
pub open spec fn extends_quietly(short: Seq<SmbusXfer>, long: Seq<SmbusXfer>) -> bool {
    &&& short.len() <= long.len()
    &&& long.take(short.len() as int) == short
    &&& forall|i: int| short.len() <= i < long.len() ==> !(#[trigger] long[i] is WriteByte)
}

pub(crate) proof fn lemma_quiet_push(short: Seq<SmbusXfer>, long: Seq<SmbusXfer>, x: SmbusXfer)
    requires
        extends_quietly(short, long),
        !(x is WriteByte),
    ensures
        extends_quietly(short, long.push(x)),
{
    assert(long.push(x).take(short.len() as int) =~= long.take(short.len() as int));
}

pub(crate) proof fn lemma_quiet_self(log: Seq<SmbusXfer>)
    ensures
        extends_quietly(log, log),
{
    assert(log.take(log.len() as int) =~= log);
}

pub(crate) proof fn lemma_quiet_chain(a: Seq<SmbusXfer>, b: Seq<SmbusXfer>, c: Seq<SmbusXfer>)
    requires
        extends_quietly(a, b),
        extends_quietly(b, c),
    ensures
        extends_quietly(a, c),
{
    assert(c.take(a.len() as int) =~= c.take(b.len() as int).take(a.len() as int));
    assert forall|i: int| a.len() <= i < c.len() implies !(#[trigger] c[i] is WriteByte) by {
        if i < b.len() {
            assert(c.take(b.len() as int)[i] == c[i]);
        }
    }
}

pub(crate) proof fn lemma_block_quiet(
    bus: ene::Bus,
    log: Seq<SmbusXfer>,
    addr: u8,
    start: nat,
    len: nat,
    got: Seq<u8>,
)
    ensures
        extends_quietly(log, ene::block_run(bus, log, addr, start, len, got).0),
    decreases len - got.len(),
{
    lemma_quiet_self(log);
    if got.len() < len {
        let reg = ene::block_reg(start, got.len());
        lemma_quiet_push(log, log, ene::latch(addr, reg));
        let latched = log.push(ene::latch(addr, reg));
        lemma_quiet_push(log, latched, ene::fetch(addr));
        let (sent, reply) = ene::read_run(bus, log, addr, reg);
        if let Ok(value) = reply {
            lemma_block_quiet(bus, sent, addr, start, len, got.push(value));
            lemma_quiet_chain(
                log,
                sent,
                ene::block_run(bus, sent, addr, start, len, got.push(value)).0,
            );
        }
    }
}

proof fn lemma_pattern_quiet(bus: ene::Bus, log: Seq<SmbusXfer>, addr: u8, offset: nat)
    ensures
        extends_quietly(log, remap::pattern_run(bus, log, addr, offset).0),
    decreases remap::PATTERN_LEN - offset,
{
    lemma_quiet_self(log);
    if offset < remap::PATTERN_LEN {
        let x = SmbusXfer::ReadByte { addr, command: (remap::PATTERN_BASE + offset) as u8 };
        lemma_quiet_push(log, log, x);
        lemma_pattern_quiet(bus, log.push(x), addr, offset + 1);
        lemma_quiet_chain(
            log,
            log.push(x),
            remap::pattern_run(bus, log.push(x), addr, offset + 1).0,
        );
    }
}

proof fn lemma_controller_quiet(bus: ene::Bus, log: Seq<SmbusXfer>, addr: u8)
    ensures
        extends_quietly(log, remap::controller_run(bus, log, addr).0),
{
    lemma_quiet_self(log);
    lemma_quiet_push(log, log, ene::ask(addr));
    let asked = log.push(ene::ask(addr));
    lemma_pattern_quiet(bus, asked, addr, 0);
    let checked = remap::pattern_run(bus, asked, addr, 0).0;
    lemma_quiet_chain(log, asked, checked);
    lemma_block_quiet(
        bus,
        checked,
        addr,
        remap::ENE_REG_MICRON_CHECK as nat,
        remap::NAME_LEN as nat,
        Seq::empty(),
    );
    lemma_quiet_chain(log, checked, remap::name_run(bus, checked, addr, Seq::empty()).0);
}

/// The detection stores nothing: it asks and reads only.
pub proof fn law_detection_stores_nothing(
    bus: ene::Bus,
    log: Seq<SmbusXfer>,
    index: nat,
    found: Seq<u8>,
)
    ensures
        extends_quietly(log, remap::detect_run(bus, log, index, found).0),
    decreases remap::POOL_LEN - index,
{
    lemma_quiet_self(log);
    if index < remap::POOL_LEN {
        let here = remap::pool()[index as int];
        lemma_controller_quiet(bus, log, here);
        let (sent, usable) = remap::controller_run(bus, log, here);
        let more = if usable {
            found.push(here)
        } else {
            found
        };
        law_detection_stores_nothing(bus, sent, index + 1, more);
        lemma_quiet_chain(log, sent, remap::detect_run(bus, sent, index + 1, more).0);
    }
}

/// If nothing answers at the default address, the remap asks that one question and is over,
/// and the whole procedure stores nothing and does not fail.
pub proof fn law_remap_is_skipped(bus: ene::Bus)
    requires
        bus(seq![ene::ask(remap::ENE_DEFAULT_ADDR)]) is Err,
    ensures
        remap::remap_run(bus, Seq::empty(), 0, 0) == (
            seq![ene::ask(remap::ENE_DEFAULT_ADDR)],
            Ok::<(), i32>(()),
        ),
        remap::remap_and_detect_run(bus).1 is Ok,
        forall|i: int|
            0 <= i < remap::remap_and_detect_run(bus).0.len() ==> !(
            #[trigger] remap::remap_and_detect_run(bus).0[i] is WriteByte),
{
    let question = ene::ask(remap::ENE_DEFAULT_ADDR);
    let asked = Seq::empty().push(question);
    assert(asked =~= seq![question]);
    law_detection_stores_nothing(bus, asked, 0, Seq::empty());
    let log = remap::remap_and_detect_run(bus).0;
    assert forall|i: int| 0 <= i < log.len() implies !(#[trigger] log[i] is WriteByte) by {
        if i < asked.len() {
            assert(log.take(asked.len() as int)[i] == log[i]);
        }
    }
}

// ---------------------------------------------------------------------------
// Assigned addresses
// ---------------------------------------------------------------------------

/// The transaction at place `i` gives the DIMM at the default address a new address.
pub open spec fn assigns(log: Seq<SmbusXfer>, i: int) -> bool {
    &&& 1 <= i < log.len()
    &&& log[i - 1] == ene::latch(remap::ENE_DEFAULT_ADDR, remap::ENE_REG_I2C_ADDRESS)
    &&& log[i] is WriteByte
}

/// The address that the transaction at place `i` assigns.
pub open spec fn assigned(log: Seq<SmbusXfer>, i: int) -> u8 {
    log[i]->value / 2
}

/// Before place `i`, the address was asked for and nothing answered.
pub open spec fn found_free(bus: ene::Bus, log: Seq<SmbusXfer>, addr: u8, i: int) -> bool {
    exists|m: int|
        0 <= m < i && #[trigger] log[m] == ene::ask(addr) && bus(log.take(m + 1)) is Err
}

/// The longer log goes on from the shorter one.
pub open spec fn extends(short: Seq<SmbusXfer>, long: Seq<SmbusXfer>) -> bool {
    short.len() <= long.len() && long.take(short.len() as int) == short
}

/// The assignments so far: to free pool addresses before place `next`, no address twice.
spec fn sound(bus: ene::Bus, log: Seq<SmbusXfer>, next: nat) -> bool {
    &&& stores_at_default(log)
    &&& forall|i: int|
        #[trigger] assigns(log, i) ==> {
            &&& log[i]->value == remap::eight_bit(assigned(log, i))
            &&& exists|k: int| 0 <= k < next && #[trigger] remap::pool()[k] == assigned(log, i)
            &&& found_free(bus, log, assigned(log, i), i)
        }
    &&& forall|i: int, j: int|
        #[trigger] assigns(log, i) && #[trigger] assigns(log, j) && i < j ==> assigned(log, i)
            != assigned(log, j)
}

proof fn lemma_free_extends(
    bus: ene::Bus,
    short: Seq<SmbusXfer>,
    long: Seq<SmbusXfer>,
    addr: u8,
    i: int,
)
    requires
        extends(short, long),
        i <= short.len(),
        found_free(bus, short, addr, i),
    ensures
        found_free(bus, long, addr, i),
{
    let m = choose|m: int|
        0 <= m < i && #[trigger] short[m] == ene::ask(addr) && bus(short.take(m + 1)) is Err;
    assert(long.take(short.len() as int)[m] == long[m]);
    assert(long.take(m + 1) =~= short.take(m + 1));
}

/// A transaction that stores nothing keeps the assignments sound.
proof fn lemma_sound_quiet(bus: ene::Bus, log: Seq<SmbusXfer>, next: nat, x: SmbusXfer)
    requires
        sound(bus, log, next),
        !(x is WriteByte),
    ensures
        sound(bus, log.push(x), next),
        extends(log, log.push(x)),
{
    let long = log.push(x);
    assert(long.take(log.len() as int) =~= log);
    assert forall|i: int| #[trigger] assigns(long, i) implies {
        &&& assigns(log, i)
        &&& long[i]->value == remap::eight_bit(assigned(long, i))
        &&& exists|k: int| 0 <= k < next && #[trigger] remap::pool()[k] == assigned(long, i)
        &&& found_free(bus, long, assigned(long, i), i)
    } by {
        assert(long[i] == log[i]);
        assert(assigns(log, i));
        lemma_free_extends(bus, log, long, assigned(log, i), i);
    }
}

/// The pool holds no address twice, and its addresses survive the shift to the 8-bit form.
proof fn lemma_pool()
    ensures
        remap::pool().len() == remap::POOL_LEN,
        forall|i: int, j: int|
            0 <= i < j < remap::POOL_LEN ==> #[trigger] remap::pool()[i] < #[trigger] remap::pool()[j],
        forall|i: int|
            0 <= i < remap::POOL_LEN ==> remap::eight_bit(#[trigger] remap::pool()[i]) / 2
                == remap::pool()[i],
{
}

proof fn lemma_search_sound(bus: ene::Bus, log: Seq<SmbusXfer>, next: nat)
    requires
        sound(bus, log, next),
        next <= remap::POOL_LEN,
    ensures
        ({
            let (sent, (next2, target)) = remap::free_target_run(bus, log, next);
            &&& next <= next2 <= remap::POOL_LEN
            &&& sound(bus, sent, next)
            &&& extends(log, sent)
            &&& target matches Some(t) ==> {
                &&& next < next2
                &&& t == remap::pool()[next2 - 1]
                &&& found_free(bus, sent, t, sent.len() as int)
            }
        }),
    decreases remap::POOL_LEN - next,
{
    lemma_pool();
    lemma_search(bus, log, next, next);
}

proof fn lemma_search(bus: ene::Bus, log: Seq<SmbusXfer>, next: nat, at: nat)
    requires
        sound(bus, log, next),
        next <= at <= remap::POOL_LEN,
    ensures
        ({
            let (sent, (next2, target)) = remap::free_target_run(bus, log, at);
            &&& at <= next2 <= remap::POOL_LEN
            &&& sound(bus, sent, next)
            &&& extends(log, sent)
            &&& target matches Some(t) ==> {
                &&& at < next2
                &&& t == remap::pool()[next2 - 1]
                &&& found_free(bus, sent, t, sent.len() as int)
            }
        }),
    decreases remap::POOL_LEN - at,
{
    assert(log.take(log.len() as int) =~= log);
    if at < remap::POOL_LEN {
        let candidate = remap::pool()[at as int];
        let sent = log.push(ene::ask(candidate));
        lemma_sound_quiet(bus, log, next, ene::ask(candidate));
        if bus(sent) is Ok {
            lemma_search(bus, sent, next, at + 1);
            let end = remap::free_target_run(bus, sent, at + 1).0;
            assert(end.take(log.len() as int) =~= end.take(sent.len() as int).take(
                log.len() as int,
            ));
        } else {
            assert(sent.take(sent.len() as int) =~= sent);
            assert(sent[log.len() as int] == ene::ask(candidate));
            assert(found_free(bus, sent, candidate, sent.len() as int));
        }
    }
}

/// Storing the slot number keeps the assignments sound.
proof fn lemma_slot_store_sound(bus: ene::Bus, log: Seq<SmbusXfer>, next: nat, value: u8)
    requires
        sound(bus, log, next),
        log.len() > 0,
        log.last() == ene::latch(remap::ENE_DEFAULT_ADDR, remap::ENE_REG_SLOT_INDEX),
    ensures
        sound(bus, log.push(ene::store(remap::ENE_DEFAULT_ADDR, value)), next),
        extends(log, log.push(ene::store(remap::ENE_DEFAULT_ADDR, value))),
{
    let long = log.push(ene::store(remap::ENE_DEFAULT_ADDR, value));
    assert(long.take(log.len() as int) =~= log);
    assert(long[log.len() - 1] == log.last());
    assert forall|i: int| #[trigger] assigns(long, i) implies {
        &&& assigns(log, i)
        &&& long[i]->value == remap::eight_bit(assigned(long, i))
        &&& exists|k: int| 0 <= k < next && #[trigger] remap::pool()[k] == assigned(long, i)
        &&& found_free(bus, long, assigned(long, i), i)
    } by {
        assert(long[i - 1] == log[i - 1]);
        assert(i != log.len());
        assert(long[i] == log[i]);
        assert(assigns(log, i));
        lemma_free_extends(bus, log, long, assigned(log, i), i);
    }
}

/// Storing the address of a free pool place beyond those used so far keeps the assignments
/// sound.
proof fn lemma_address_store_sound(bus: ene::Bus, log: Seq<SmbusXfer>, next: nat, place: nat)
    requires
        sound(bus, log, next),
        next <= place < remap::POOL_LEN,
        log.len() > 0,
        log.last() == ene::latch(remap::ENE_DEFAULT_ADDR, remap::ENE_REG_I2C_ADDRESS),
        found_free(bus, log, remap::pool()[place as int], log.len() as int),
    ensures
        sound(
            bus,
            log.push(
                ene::store(
                    remap::ENE_DEFAULT_ADDR,
                    remap::eight_bit(remap::pool()[place as int]),
                ),
            ),
            place + 1,
        ),
{
    lemma_pool();
    let target = remap::pool()[place as int];
    let long = log.push(ene::store(remap::ENE_DEFAULT_ADDR, remap::eight_bit(target)));
    let here = log.len() as int;
    assert(long.take(here) =~= log);
    assert(assigned(long, here) == target);
    lemma_free_extends(bus, log, long, target, here);
    assert forall|i: int| #[trigger] assigns(long, i) implies {
        &&& i == here || assigns(log, i)
        &&& long[i]->value == remap::eight_bit(assigned(long, i))
        &&& exists|k: int| 0 <= k < place + 1 && #[trigger] remap::pool()[k] == assigned(long, i)
        &&& found_free(bus, long, assigned(long, i), i)
    } by {
        if i != here {
            assert(long[i - 1] == log[i - 1]);
            assert(long[i] == log[i]);
            assert(assigns(log, i));
            lemma_free_extends(bus, log, long, assigned(log, i), i);
        }
    }
    assert forall|i: int, j: int|
        #[trigger] assigns(long, i) && #[trigger] assigns(long, j) && i < j implies assigned(
        long,
        i,
    ) != assigned(long, j) by {
        assert(long[i] == log[i]);
        assert(assigns(log, i));
        if j != here {
            assert(long[j] == log[j]);
            assert(assigns(log, j));
        }
    }
}

proof fn lemma_sound_grows(bus: ene::Bus, log: Seq<SmbusXfer>, next: nat, next2: nat)
    requires
        sound(bus, log, next),
        next <= next2,
    ensures
        sound(bus, log, next2),
{
    assert forall|i: int| #[trigger] assigns(log, i) implies exists|k: int|
        0 <= k < next2 && #[trigger] remap::pool()[k] == assigned(log, i) by {
        let k = choose|k: int| 0 <= k < next && #[trigger] remap::pool()[k] == assigned(log, i);
        assert(remap::pool()[k] == assigned(log, i));
    }
}

proof fn lemma_free_later(bus: ene::Bus, log: Seq<SmbusXfer>, addr: u8, x: SmbusXfer)
    requires
        found_free(bus, log, addr, log.len() as int),
    ensures
        found_free(bus, log.push(x), addr, (log.len() + 1) as int),
{
    let long = log.push(x);
    assert(long.take(log.len() as int) =~= log);
    lemma_free_extends(bus, log, long, addr, log.len() as int);
}

proof fn lemma_remap_sound(bus: ene::Bus, log: Seq<SmbusXfer>, slot: nat, next: nat)
    requires
        sound(bus, log, next),
        next <= remap::POOL_LEN,
    ensures
        sound(bus, remap::remap_run(bus, log, slot, next).0, remap::POOL_LEN as nat),
    decreases remap::ENE_MAX_DIMM_SLOTS - slot,
{
    let def = remap::ENE_DEFAULT_ADDR;
    lemma_sound_grows(bus, log, next, remap::POOL_LEN as nat);
    if slot < remap::ENE_MAX_DIMM_SLOTS {
        let asked = log.push(ene::ask(def));
        lemma_sound_quiet(bus, log, next, ene::ask(def));
        lemma_sound_grows(bus, asked, next, remap::POOL_LEN as nat);
        if bus(asked) is Ok {
            lemma_search_sound(bus, asked, next);
            let (searched, (next2, target)) = remap::free_target_run(bus, asked, next);
            lemma_sound_grows(bus, searched, next, remap::POOL_LEN as nat);
            if let Some(t) = target {
                let l1 = ene::latch(def, remap::ENE_REG_SLOT_INDEX);
                let s1 = ene::store(def, slot as u8);
                let l2 = ene::latch(def, remap::ENE_REG_I2C_ADDRESS);
                let s2 = ene::store(def, remap::eight_bit(t));
                let log1 = searched.push(l1);
                lemma_sound_quiet(bus, searched, next, l1);
                lemma_free_later(bus, searched, t, l1);
                lemma_sound_grows(bus, log1, next, remap::POOL_LEN as nat);
                if bus(log1) is Ok {
                    let log2 = log1.push(s1);
                    lemma_slot_store_sound(bus, log1, next, slot as u8);
                    lemma_free_later(bus, log1, t, s1);
                    lemma_sound_grows(bus, log2, next, remap::POOL_LEN as nat);
                    if bus(log2) is Ok {
                        let log3 = log2.push(l2);
                        lemma_sound_quiet(bus, log2, next, l2);
                        lemma_free_later(bus, log2, t, l2);
                        lemma_sound_grows(bus, log3, next, remap::POOL_LEN as nat);
                        if bus(log3) is Ok {
                            let log4 = log3.push(s2);
                            lemma_address_store_sound(bus, log3, next, (next2 - 1) as nat);
                            lemma_sound_grows(bus, log4, next2, remap::POOL_LEN as nat);
                            if bus(log4) is Ok {
                                lemma_remap_sound(bus, log4, slot + 1, next2);
                            }
                        }
                    }
                }
            }
        }
    }
}

/// A quiet continuation keeps the assignments sound.
proof fn lemma_sound_extends_quietly(
    bus: ene::Bus,
    short: Seq<SmbusXfer>,
    long: Seq<SmbusXfer>,
    next: nat,
)
    requires
        sound(bus, short, next),
        extends_quietly(short, long),
    ensures
        sound(bus, long, next),
    decreases long.len() - short.len(),
{
    if long.len() == short.len() {
        assert(long.take(long.len() as int) =~= long);
    } else {
        let before = long.drop_last();
        assert(before.take(short.len() as int) =~= long.take(short.len() as int));
        assert forall|i: int| short.len() <= i < before.len() implies !(
        #[trigger] before[i] is WriteByte) by {
            assert(before[i] == long[i]);
        }
        lemma_sound_extends_quietly(bus, short, before, next);
        lemma_sound_quiet(bus, before, next, long.last());
        assert(before.push(long.last()) =~= long);
    }
}

/// Every DIMM is given an address of its own: an address of the pool at which nothing answered
/// when it was asked for, and no address is given twice. Nothing else is ever stored anywhere
/// but at the default address.
pub proof fn law_assigned_addresses_are_free_and_distinct(bus: ene::Bus)
    ensures
        ({
            let log = remap::remap_and_detect_run(bus).0;
            &&& stores_at_default(log)
            &&& forall|i: int|
                #[trigger] assigns(log, i) ==> {
                    &&& log[i] == ene::store(
                        remap::ENE_DEFAULT_ADDR,
                        remap::eight_bit(assigned(log, i)),
                    )
                    &&& remap::pool().contains(assigned(log, i))
                    &&& found_free(bus, log, assigned(log, i), i)
                }
            &&& forall|i: int, j: int|
                #[trigger] assigns(log, i) && #[trigger] assigns(log, j) && i < j ==> assigned(
                    log,
                    i,
                ) != assigned(log, j)
        }),
{
    lemma_pool();
    let start = Seq::<SmbusXfer>::empty();
    assert(sound(bus, start, 0));
    lemma_remap_sound(bus, start, 0, 0);
    let (sent, done) = remap::remap_run(bus, start, 0, 0);
    let log = remap::remap_and_detect_run(bus).0;
    if done is Ok {
        law_detection_stores_nothing(bus, sent, 0, Seq::empty());
        lemma_sound_extends_quietly(bus, sent, log, remap::POOL_LEN as nat);
    }
    assert forall|i: int| #[trigger] assigns(log, i) implies {
        &&& log[i] == ene::store(remap::ENE_DEFAULT_ADDR, remap::eight_bit(assigned(log, i)))
        &&& remap::pool().contains(assigned(log, i))
    } by {
        let k = choose|k: int|
            0 <= k < remap::POOL_LEN && #[trigger] remap::pool()[k] == assigned(log, i);
        assert(remap::pool()[k] == assigned(log, i));
        assert(log[i] is WriteByte);
    }
}

// ---------------------------------------------------------------------------
// Found controllers
// ---------------------------------------------------------------------------

/// The addresses are in ascending order and all of them stand in the pool before place `index`.
pub open spec fn ascending_in_pool(found: Seq<u8>, index: nat) -> bool {
    &&& forall|i: int, j: int| 0 <= i < j < found.len() ==> #[trigger] found[i] < #[trigger] found[j]
    &&& forall|i: int|
        0 <= i < found.len() ==> exists|k: int|
            0 <= k < index && remap::pool()[k] == #[trigger] found[i]
}

proof fn lemma_found_ascending(bus: ene::Bus, log: Seq<SmbusXfer>, index: nat, found: Seq<u8>)
    requires
        index <= remap::POOL_LEN,
        ascending_in_pool(found, index),
    ensures
        ascending_in_pool(
            remap::detect_run(bus, log, index, found).1,
            remap::POOL_LEN as nat,
        ),
    decreases remap::POOL_LEN - index,
{
    lemma_pool();
    if index < remap::POOL_LEN {
        let here = remap::pool()[index as int];
        let (sent, usable) = remap::controller_run(bus, log, here);
        let more = if usable {
            found.push(here)
        } else {
            found
        };
        assert forall|i: int| 0 <= i < more.len() implies exists|k: int|
            0 <= k < index + 1 && remap::pool()[k] == #[trigger] more[i] by {
            if i < found.len() {
                let k = choose|k: int| 0 <= k < index && remap::pool()[k] == found[i];
                assert(remap::pool()[k] == more[i]);
            } else {
                assert(remap::pool()[index as int] == more[i]);
            }
        }
        assert forall|i: int, j: int| 0 <= i < j < more.len() implies #[trigger] more[i]
            < #[trigger] more[j] by {
            let k = choose|k: int| 0 <= k < index && remap::pool()[k] == found[i];
            assert(remap::pool()[k] == found[i]);
        }
        lemma_found_ascending(bus, sent, index + 1, more);
    }
}

/// The controllers are reported in ascending order of their addresses, each address once, and
/// every one of them is an address of the pool.
pub proof fn law_found_addresses_are_ordered(bus: ene::Bus)
    ensures
        remap::remap_and_detect_run(bus).1 matches Ok(found) ==> ascending_in_pool(
            found,
            remap::POOL_LEN as nat,
        ),
{
    let (sent, done) = remap::remap_run(bus, Seq::empty(), 0, 0);
    lemma_found_ascending(bus, sent, 0, Seq::empty());
}

} // verus!
