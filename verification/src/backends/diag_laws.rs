//! What holds of every diagnostic reading, whatever is on the bus.

use crate::backends::diag::{self, DiagEntryView};
use crate::backends::ene;
use crate::backends::remap_laws;
use crate::pawnio::SmbusXfer;
use vstd::prelude::*;

verus! {

/// The entry is that of the controller at the address, and its parts are complete: every
/// register of the dump is there, in order, read or not.
pub open spec fn complete(e: DiagEntryView, addr: u8) -> bool {
    &&& e.addr == addr
    &&& e.name.len() == 16
    &&& e.v1_first.len() == 3
    &&& e.v2_first.len() == 3
    &&& dump_in_order(e.dump)
    &&& e.dump.len() == diag::DUMP_LEN
}

/// The registers of a dump are in their order.
pub open spec fn dump_in_order(dump: Seq<(u16, Option<u8>)>) -> bool {
    forall|i: int| 0 <= i < dump.len() ==> (#[trigger] dump[i]).0 == diag::dump_reg(i as nat)
}

proof fn lemma_blocks(bus: ene::Bus, log: Seq<SmbusXfer>, addr: u8, got: Seq<Seq<u8>>)
    requires
        got.len() <= diag::BLOCKS,
        forall|k: int|
            0 <= k < got.len() ==> (#[trigger] got[k]).len() == diag::block_len(k as nat),
    ensures
        ({
            let (sent, blocks) = diag::blocks_run(bus, log, addr, got);
            &&& blocks.len() == diag::BLOCKS
            &&& forall|k: int|
                0 <= k < blocks.len() ==> (#[trigger] blocks[k]).len() == diag::block_len(k as nat)
            &&& remap_laws::extends_quietly(log, sent)
        }),
    decreases diag::BLOCKS - got.len(),
{
    remap_laws::lemma_quiet_self(log);
    if got.len() < diag::BLOCKS {
        let start = diag::block_start(got.len());
        let len = diag::block_len(got.len());
        let (sent, (bytes, _)) = ene::block_run(bus, log, addr, start, len, Seq::empty());
        remap_laws::lemma_block_quiet(bus, log, addr, start, len, Seq::empty());
        let more = got.push(ene::zero_filled(bytes, len));
        lemma_blocks(bus, sent, addr, more);
        remap_laws::lemma_quiet_chain(log, sent, diag::blocks_run(bus, sent, addr, more).0);
    }
}

proof fn lemma_dump(
    bus: ene::Bus,
    log: Seq<SmbusXfer>,
    addr: u8,
    got: Seq<(u16, Option<u8>)>,
)
    requires
        got.len() <= diag::DUMP_LEN,
        dump_in_order(got),
    ensures
        ({
            let (sent, dump) = diag::dump_run(bus, log, addr, got);
            &&& dump.len() == diag::DUMP_LEN
            &&& dump_in_order(dump)
            &&& remap_laws::extends_quietly(log, sent)
        }),
    decreases diag::DUMP_LEN - got.len(),
{
    remap_laws::lemma_quiet_self(log);
    if got.len() < diag::DUMP_LEN {
        let reg = diag::dump_reg(got.len());
        let (sent, reply) = ene::read_run(bus, log, addr, reg);
        let latched = log.push(ene::latch(addr, reg));
        remap_laws::lemma_quiet_push(log, log, ene::latch(addr, reg));
        remap_laws::lemma_quiet_push(log, latched, ene::fetch(addr));
        let more = got.push((reg, diag::byte_of(reply)));
        lemma_dump(bus, sent, addr, more);
        remap_laws::lemma_quiet_chain(log, sent, diag::dump_run(bus, sent, addr, more).0);
    }
}

/// A reading brings one complete entry for each address, in the order of the addresses, so
/// that the dumps of all controllers line up register by register. It stores nothing in any
/// register.
pub proof fn law_diag_entries_line_up(
    bus: ene::Bus,
    log: Seq<SmbusXfer>,
    addrs: Seq<u8>,
    got: Seq<DiagEntryView>,
)
    requires
        got.len() <= addrs.len(),
        forall|k: int| 0 <= k < got.len() ==> complete(#[trigger] got[k], addrs[k]),
    ensures
        ({
            let (sent, entries) = diag::diag_run(bus, log, addrs, got);
            &&& entries.len() == addrs.len()
            &&& forall|k: int|
                0 <= k < entries.len() ==> complete(#[trigger] entries[k], addrs[k])
            &&& remap_laws::extends_quietly(log, sent)
        }),
    decreases addrs.len() - got.len(),
{
    remap_laws::lemma_quiet_self(log);
    if got.len() < addrs.len() {
        let addr = addrs[got.len() as int];
        let (sent, entry) = diag::entry_run(bus, log, addr);
        let (blocks_log, blocks) = diag::blocks_run(bus, log, addr, Seq::empty());
        lemma_blocks(bus, log, addr, Seq::empty());
        lemma_dump(bus, blocks_log, addr, Seq::empty());
        assert(blocks[0].len() == diag::block_len(0));
        assert(blocks[1].len() == diag::block_len(1));
        assert(blocks[2].len() == diag::block_len(2));
        remap_laws::lemma_quiet_chain(log, blocks_log, sent);
        law_diag_entries_line_up(bus, sent, addrs, got.push(entry));
        remap_laws::lemma_quiet_chain(
            log,
            sent,
            diag::diag_run(bus, sent, addrs, got.push(entry)).0,
        );
    }
}

} // verus!
