//! The diagnostic reading of ENE controllers: device names, first colors, and a wide dump of
//! registers, to be compared across DIMMs.

use crate::backends::ene::{self, BlockRead, BlockState};
use crate::pawnio::SmbusXfer;
use vstd::prelude::*;

verus! {

/// The register ranges that are dumped, each with its end left out: the whole low-memory area,
/// and the control registers with both effect regions.
pub const DIAG_RANGES: [(u16, u16); 2] = [(0x0000, 0x2000), (0x8020, 0x8200)];

/// The number of registers that are dumped.
pub const DUMP_LEN: usize = 0x21E0;

/// The number of blocks that are read before the dump.
pub const BLOCKS: usize = 3;

/// What was read from one controller.
#[derive(Debug)]
pub struct DiagEntry {
    pub addr: u8,
    pub name: [u8; 16],
    pub v1_first: [u8; 3],
    pub v2_first: [u8; 3],
    pub dump: Vec<(u16, Option<u8>)>,
}

/// A `DiagEntry` as mathematical values.
pub struct DiagEntryView {
    pub addr: u8,
    pub name: Seq<u8>,
    pub v1_first: Seq<u8>,
    pub v2_first: Seq<u8>,
    pub dump: Seq<(u16, Option<u8>)>,
}

impl View for DiagEntry {
    type V = DiagEntryView;

    open spec fn view(&self) -> DiagEntryView {
        DiagEntryView {
            addr: self.addr,
            name: self.name@,
            v1_first: self.v1_first@,
            v2_first: self.v2_first@,
            dump: self.dump@,
        }
    }
}

/// The entries of a list, as mathematical values.
pub open spec fn entry_views(list: Seq<DiagEntry>) -> Seq<DiagEntryView> {
    list.map_values(|e: DiagEntry| e@)
}

// ---------------------------------------------------------------------------
// The procedure
// ---------------------------------------------------------------------------

/// The register at a place of the dump.
pub open spec fn dump_reg(place: nat) -> u16 {
    if place < 0x2000 {
        place as u16
    } else {
        (0x8020 + place - 0x2000) as u16
    }
}

/// The first register of a block: the device name, then the first LED's color in each of the
/// two register banks.
pub open spec fn block_start(k: nat) -> nat {
    if k == 0 {
        0x1000
    } else if k == 1 {
        0x8010
    } else {
        0x8160
    }
}

/// The length of a block.
pub open spec fn block_len(k: nat) -> nat {
    if k == 0 {
        16
    } else {
        3
    }
}

/// Reads the blocks that are not read yet. What could not be read is zero.
pub open spec fn blocks_run(
    bus: ene::Bus,
    log: Seq<SmbusXfer>,
    addr: u8,
    got: Seq<Seq<u8>>,
) -> (Seq<SmbusXfer>, Seq<Seq<u8>>)
    decreases BLOCKS - got.len(),
{
    if got.len() >= BLOCKS {
        (log, got)
    } else {
        let (sent, (bytes, _)) = ene::block_run(
            bus,
            log,
            addr,
            block_start(got.len()),
            block_len(got.len()),
            Seq::empty(),
        );
        blocks_run(bus, sent, addr, got.push(ene::zero_filled(bytes, block_len(got.len()))))
    }
}

/// The byte, if one was read.
pub open spec fn byte_of(reply: Result<u8, i32>) -> Option<u8> {
    match reply {
        Ok(value) => Some(value),
        Err(_) => None,
    }
}

/// Reads the registers of the dump that are not read yet. One that could not be read does not
/// stop the others.
pub open spec fn dump_run(
    bus: ene::Bus,
    log: Seq<SmbusXfer>,
    addr: u8,
    got: Seq<(u16, Option<u8>)>,
) -> (Seq<SmbusXfer>, Seq<(u16, Option<u8>)>)
    decreases DUMP_LEN - got.len(),
{
    if got.len() >= DUMP_LEN {
        (log, got)
    } else {
        let reg = dump_reg(got.len());
        let (sent, reply) = ene::read_run(bus, log, addr, reg);
        dump_run(bus, sent, addr, got.push((reg, byte_of(reply))))
    }
}

/// The entry that blocks and dump make up.
pub open spec fn entry_of(
    addr: u8,
    blocks: Seq<Seq<u8>>,
    dump: Seq<(u16, Option<u8>)>,
) -> DiagEntryView {
    DiagEntryView { addr, name: blocks[0], v1_first: blocks[1], v2_first: blocks[2], dump }
}

/// Reads one controller.
pub open spec fn entry_run(bus: ene::Bus, log: Seq<SmbusXfer>, addr: u8) -> (
    Seq<SmbusXfer>,
    DiagEntryView,
) {
    let (blocks_log, blocks) = blocks_run(bus, log, addr, Seq::empty());
    let (dump_log, dump) = dump_run(bus, blocks_log, addr, Seq::empty());
    (dump_log, entry_of(addr, blocks, dump))
}

/// Reads the controllers that are not read yet, one after another.
pub open spec fn diag_run(
    bus: ene::Bus,
    log: Seq<SmbusXfer>,
    addrs: Seq<u8>,
    got: Seq<DiagEntryView>,
) -> (Seq<SmbusXfer>, Seq<DiagEntryView>)
    decreases addrs.len() - got.len(),
{
    if got.len() >= addrs.len() {
        (log, got)
    } else {
        let (sent, entry) = entry_run(bus, log, addrs[got.len() as int]);
        diag_run(bus, sent, addrs, got.push(entry))
    }
}

// ---------------------------------------------------------------------------
// The procedure, step by step
// ---------------------------------------------------------------------------

/// The diagnostic reading, as far as it has come.
pub struct DiagSession {
    addrs: Vec<u8>,
    entries: Vec<DiagEntry>,
    name: [u8; 16],
    v1_first: [u8; 3],
    v2_first: [u8; 3],
    blocks: usize,
    block: BlockRead,
    dump: Vec<(u16, Option<u8>)>,
    latched: bool,
}

/// A `DiagSession` as mathematical values: the addresses, the finished entries, and of the
/// controller at hand the finished blocks, the block being read and the dump so far.
pub struct DiagState {
    pub addrs: Seq<u8>,
    pub entries: Seq<DiagEntryView>,
    pub blocks: Seq<Seq<u8>>,
    pub block: BlockState,
    pub dump: Seq<(u16, Option<u8>)>,
    pub latched: bool,
}

/// The reading of a block of the controller at a place, at its beginning.
pub open spec fn fresh_block(addrs: Seq<u8>, place: nat, k: nat) -> BlockState {
    BlockState {
        addr: if place < addrs.len() {
            addrs[place as int]
        } else {
            0
        },
        start: block_start(k),
        len: block_len(k),
        got: Seq::empty(),
        latched: false,
        failed: None,
    }
}

impl View for DiagSession {
    type V = DiagState;

    closed spec fn view(&self) -> DiagState {
        DiagState {
            addrs: self.addrs@,
            entries: entry_views(self.entries@),
            blocks: if self.blocks == 0 {
                Seq::empty()
            } else if self.blocks == 1 {
                seq![self.name@]
            } else if self.blocks == 2 {
                seq![self.name@, self.v1_first@]
            } else {
                seq![self.name@, self.v1_first@, self.v2_first@]
            },
            block: self.block@,
            dump: self.dump@,
            latched: self.latched,
        }
    }
}

impl DiagState {
    /// The counters are within their bounds, and the block at hand is the one that is next.
    pub open spec fn wf(self) -> bool {
        &&& self.entries.len() <= self.addrs.len()
        &&& self.blocks.len() <= BLOCKS
        &&& self.dump.len() < DUMP_LEN
        &&& forall|k: int|
            0 <= k < self.blocks.len() ==> (#[trigger] self.blocks[k]).len() == block_len(k as nat)
        &&& self.blocks.len() < BLOCKS ==> {
            let fresh = fresh_block(self.addrs, self.entries.len(), self.blocks.len());
            &&& self.block.wf()
            &&& !self.block.done()
            &&& self.block.addr == fresh.addr
            &&& self.block.start == fresh.start
            &&& self.block.len == fresh.len
            &&& self.dump.len() == 0
            &&& !self.latched
        }
    }

    /// Nothing is left to be sent.
    pub open spec fn done(self) -> bool {
        self.entries.len() >= self.addrs.len()
    }

    /// The address of the controller at hand.
    pub open spec fn addr(self) -> u8 {
        self.addrs[self.entries.len() as int]
    }

    /// The transaction that is due.
    pub open spec fn due(self) -> SmbusXfer {
        if self.blocks.len() < BLOCKS {
            self.block.due()
        } else if self.latched {
            ene::fetch(self.addr())
        } else {
            ene::latch(self.addr(), dump_reg(self.dump.len()))
        }
    }

    /// The state once the register at hand is settled.
    pub open spec fn dumped(self, value: Option<u8>) -> DiagState {
        let dump = self.dump.push((dump_reg(self.dump.len()), value));
        if dump.len() < DUMP_LEN {
            DiagState { dump, latched: false, ..self }
        } else {
            DiagState {
                addrs: self.addrs,
                entries: self.entries.push(entry_of(self.addr(), self.blocks, dump)),
                blocks: Seq::empty(),
                block: fresh_block(self.addrs, self.entries.len() + 1, 0),
                dump: Seq::empty(),
                latched: false,
            }
        }
    }

    /// The state after the reply to the transaction that was due.
    pub open spec fn after(self, reply: Result<u8, i32>) -> DiagState {
        if self.done() {
            self
        } else if self.blocks.len() < BLOCKS {
            let block = self.block.after(reply);
            if !block.done() {
                DiagState { block, ..self }
            } else {
                DiagState {
                    blocks: self.blocks.push(ene::zero_filled(block.got, block.len)),
                    block: fresh_block(self.addrs, self.entries.len(), self.blocks.len() + 1),
                    ..self
                }
            }
        } else if self.latched {
            self.dumped(byte_of(reply))
        } else {
            match reply {
                Ok(_) => DiagState { latched: true, ..self },
                Err(_) => self.dumped(None),
            }
        }
    }

    /// A bound on the number of transactions that can still follow for the controller at hand.
    pub open spec fn left_here(self) -> nat {
        if self.blocks.len() < BLOCKS {
            self.block.left() + 2 * (if self.blocks.len() == 0 {
                6nat
            } else if self.blocks.len() == 1 {
                3
            } else {
                0
            }) + 2 * DUMP_LEN as nat
        } else {
            (2 * (DUMP_LEN - self.dump.len()) - if self.latched {
                1int
            } else {
                0
            }) as nat
        }
    }

    /// A bound on the number of transactions that can still follow.
    pub open spec fn left(self) -> nat {
        if self.done() {
            0
        } else {
            (PER_CHIP * (self.addrs.len() - self.entries.len() - 1) + self.left_here()) as nat
        }
    }

    /// What the reading of the controller at hand comes to from here on.
    pub open spec fn outcome_here(self, bus: ene::Bus, log: Seq<SmbusXfer>) -> (
        Seq<SmbusXfer>,
        DiagEntryView,
    ) {
        if self.blocks.len() < BLOCKS {
            let (block_log, (bytes, _)) = self.block.outcome(bus, log);
            let (blocks_log, blocks) = blocks_run(
                bus,
                block_log,
                self.addr(),
                self.blocks.push(ene::zero_filled(bytes, self.block.len)),
            );
            let (dump_log, dump) = dump_run(bus, blocks_log, self.addr(), Seq::empty());
            (dump_log, entry_of(self.addr(), blocks, dump))
        } else if self.latched {
            let (sent, reply) = ene::send(bus, log, ene::fetch(self.addr()));
            let (dump_log, dump) = dump_run(
                bus,
                sent,
                self.addr(),
                self.dump.push((dump_reg(self.dump.len()), byte_of(reply))),
            );
            (dump_log, entry_of(self.addr(), self.blocks, dump))
        } else {
            let (dump_log, dump) = dump_run(bus, log, self.addr(), self.dump);
            (dump_log, entry_of(self.addr(), self.blocks, dump))
        }
    }

    /// What the reading comes to from here on.
    pub open spec fn outcome(self, bus: ene::Bus, log: Seq<SmbusXfer>) -> (
        Seq<SmbusXfer>,
        Seq<DiagEntryView>,
    ) {
        if self.done() {
            (log, self.entries)
        } else {
            let (sent, entry) = self.outcome_here(bus, log);
            diag_run(bus, sent, self.addrs, self.entries.push(entry))
        }
    }
}

/// A bound on the number of transactions for one controller.
pub const PER_CHIP: usize = 17388;

/// The state in which a reading begins.
pub open spec fn first_state(addrs: Seq<u8>) -> DiagState {
    DiagState {
        addrs,
        entries: Seq::empty(),
        blocks: Seq::empty(),
        block: fresh_block(addrs, 0, 0),
        dump: Seq::empty(),
        latched: false,
    }
}

/// A reading that begins a controller comes to what the procedure comes to from there.
proof fn lemma_fresh(s: DiagState, bus: ene::Bus, log: Seq<SmbusXfer>)
    requires
        s.entries.len() <= s.addrs.len(),
        s.blocks == Seq::<Seq<u8>>::empty(),
        s.block == fresh_block(s.addrs, s.entries.len(), 0),
        s.dump == Seq::<(u16, Option<u8>)>::empty(),
        !s.latched,
    ensures
        s.wf(),
        s.outcome(bus, log) == diag_run(bus, log, s.addrs, s.entries),
{
    reveal_with_fuel(diag_run, 2);
    reveal_with_fuel(blocks_run, 2);
    reveal_with_fuel(dump_run, 1);
}

/// Every step of a reading keeps what it comes to, and comes nearer to its end.
pub proof fn law_diag_step(s: DiagState, bus: ene::Bus, log: Seq<SmbusXfer>)
    requires
        s.wf(),
        !s.done(),
    ensures
        ({
            let (sent, reply) = ene::send(bus, log, s.due());
            &&& s.after(reply).wf()
            &&& s.after(reply).outcome(bus, sent) == s.outcome(bus, log)
            &&& s.after(reply).left() < s.left()
        }),
{
    let (sent, reply) = ene::send(bus, log, s.due());
    let next = s.after(reply);
    if s.blocks.len() < BLOCKS {
        ene::law_block_step(s.block, bus, log);
        let block = s.block.after(reply);
        if block.done() {
            reveal_with_fuel(blocks_run, 2);
            assert(s.dump =~= Seq::<(u16, Option<u8>)>::empty());
            assert(next.outcome_here(bus, sent) == s.outcome_here(bus, log));
        }
    } else {
        reveal_with_fuel(dump_run, 2);
        if next.entries.len() > s.entries.len() {
            lemma_fresh(next, bus, sent);
        }
    }
}

/// A reading carried on for at most `steps` transactions.
pub open spec fn session_run(
    s: DiagState,
    bus: ene::Bus,
    log: Seq<SmbusXfer>,
    steps: nat,
) -> (DiagState, Seq<SmbusXfer>)
    decreases steps,
{
    if steps == 0 || s.done() {
        (s, log)
    } else {
        let (sent, reply) = ene::send(bus, log, s.due());
        session_run(s.after(reply), bus, sent, (steps - 1) as nat)
    }
}

proof fn lemma_session_run(s: DiagState, bus: ene::Bus, log: Seq<SmbusXfer>, steps: nat)
    requires
        s.wf(),
        s.left() <= steps,
    ensures
        ({
            let (end, sent) = session_run(s, bus, log, steps);
            &&& end.done()
            &&& (sent, end.entries) == s.outcome(bus, log)
        }),
    decreases steps,
{
    if !s.done() {
        law_diag_step(s, bus, log);
        let (sent, reply) = ene::send(bus, log, s.due());
        lemma_session_run(s.after(reply), bus, sent, (steps - 1) as nat);
    }
}

/// On every bus, a reading ends, and it sends exactly the transactions of the procedure and
/// comes to exactly its entries.
pub proof fn law_diag_session_follows_procedure(
    addrs: Seq<u8>,
    bus: ene::Bus,
    log: Seq<SmbusXfer>,
)
    ensures
        ({
            let (end, sent) = session_run(
                first_state(addrs),
                bus,
                log,
                (PER_CHIP * addrs.len()) as nat,
            );
            &&& end.done()
            &&& (sent, end.entries) == diag_run(bus, log, addrs, Seq::empty())
        }),
{
    lemma_fresh(first_state(addrs), bus, log);
    lemma_session_run(first_state(addrs), bus, log, (PER_CHIP * addrs.len()) as nat);
}

/// The register at a place of the dump.
fn register_at(place: usize) -> (reg: u16)
    requires
        place < DUMP_LEN,
    ensures
        reg == dump_reg(place as nat),
{
    let first = DIAG_RANGES[0];
    let second = DIAG_RANGES[1];
    let first_len: usize = (first.1 - first.0) as usize;
    if place < first_len {
        first.0 + place as u16
    } else {
        second.0 + (place - first_len) as u16
    }
}

/// Begins the reading of a block of the controller at an address.
fn read_block(addr: u8, k: usize) -> (block: BlockRead)
    ensures
        block@.wf(),
        block@ == (BlockState {
            addr,
            start: block_start(k as nat),
            len: block_len(k as nat),
            got: Seq::empty(),
            latched: false,
            failed: None,
        }),
{
    if k == 0 {
        ene::ene_read_block(addr, 0x1000, 16)
    } else if k == 1 {
        ene::ene_read_block(addr, 0x8010, 3)
    } else {
        ene::ene_read_block(addr, 0x8160, 3)
    }
}

/// Begins the diagnostic reading of the controllers at the given addresses: of each the
/// 16-byte device name, the first LED's color in both register banks, and a wide dump of
/// (register, value) pairs.
pub fn probe_diag(addrs: Vec<u8>) -> (session: DiagSession)
    ensures
        session@.wf(),
        session@ == first_state(addrs@),
        forall|bus: ene::Bus, log: Seq<SmbusXfer>| #[trigger]
            session@.outcome(bus, log) == diag_run(bus, log, addrs@, Seq::empty()),
{
    let addr: u8 = if addrs.len() > 0 {
        addrs[0]
    } else {
        0
    };
    let session = DiagSession {
        addrs,
        entries: Vec::new(),
        name: [0u8; 16],
        v1_first: [0u8; 3],
        v2_first: [0u8; 3],
        blocks: 0,
        block: read_block(addr, 0),
        dump: Vec::new(),
        latched: false,
    };
    assert(session@.entries =~= Seq::<DiagEntryView>::empty());
    assert(session@.blocks =~= Seq::<Seq<u8>>::empty());
    assert(session@.dump =~= Seq::<(u16, Option<u8>)>::empty());
    proof {
        assert forall|bus: ene::Bus, log: Seq<SmbusXfer>| #[trigger]
            session@.outcome(bus, log) == diag_run(bus, log, addrs@, Seq::empty()) by {
            lemma_fresh(session@, bus, log);
        }
        lemma_fresh(session@, |sent: Seq<SmbusXfer>| Ok::<u8, i32>(0), Seq::empty());
    }
    session
}

impl DiagSession {
    /// The transaction that is due; `None` once the reading has ended.
    pub fn pending(&self) -> (x: Option<SmbusXfer>)
        requires
            self@.wf(),
        ensures
            x == if self@.done() {
                None
            } else {
                Some(self@.due())
            },
    {
        if self.entries.len() >= self.addrs.len() {
            return None;
        }
        if self.blocks < BLOCKS {
            return self.block.pending();
        }
        let addr: u8 = self.addrs[self.entries.len()];
        if self.latched {
            Some(SmbusXfer::ReadByte { addr, command: ene::CMD_FETCH })
        } else {
            Some(ene::latch_xfer(addr, register_at(self.dump.len())))
        }
    }

    /// The register at hand is settled: on to the next one, or to the next controller.
    fn settle(&mut self, value: Option<u8>)
        requires
            old(self)@.wf(),
            !old(self)@.done(),
            old(self)@.blocks.len() == BLOCKS,
        ensures
            final(self)@ == old(self)@.dumped(value),
    {
        let reg: u16 = register_at(self.dump.len());
        self.dump.push((reg, value));
        self.latched = false;
        if self.dump.len() >= DUMP_LEN {
            let mut dump: Vec<(u16, Option<u8>)> = Vec::new();
            std::mem::swap(&mut dump, &mut self.dump);
            let ghost before = self@.entries;
            self.entries.push(
                DiagEntry {
                    addr: self.addrs[self.entries.len()],
                    name: self.name,
                    v1_first: self.v1_first,
                    v2_first: self.v2_first,
                    dump,
                },
            );
            self.blocks = 0;
            let addr: u8 = if self.entries.len() < self.addrs.len() {
                self.addrs[self.entries.len()]
            } else {
                0
            };
            self.block = read_block(addr, 0);
        }
        assert(self@.blocks =~= old(self)@.dumped(value).blocks);
        assert(self@.entries =~= old(self)@.dumped(value).entries);
        assert(self@.dump =~= old(self)@.dumped(value).dump);
    }

    /// The block at hand has ended: its bytes are kept, and the next block begins.
    fn keep_block(&mut self)
        requires
            old(self)@.block.wf(),
            old(self)@.entries.len() < old(self)@.addrs.len(),
            old(self)@.blocks.len() < BLOCKS,
            old(self)@.block.len == block_len(old(self)@.blocks.len()),
        ensures
            final(self)@ == (DiagState {
                blocks: old(self)@.blocks.push(
                    ene::zero_filled(old(self)@.block.got, old(self)@.block.len),
                ),
                block: fresh_block(
                    old(self)@.addrs,
                    old(self)@.entries.len(),
                    old(self)@.blocks.len() + 1,
                ),
                ..old(self)@
            }),
    {
        let bytes = self.block.bytes();
        if self.blocks == 0 {
            self.name = first_sixteen(&bytes);
        } else if self.blocks == 1 {
            self.v1_first = first_three(&bytes);
        } else {
            self.v2_first = first_three(&bytes);
        }
        self.blocks += 1;
        self.block = read_block(self.addrs[self.entries.len()], self.blocks);
        assert(self@.blocks =~= old(self)@.blocks.push(bytes@));
    }

    /// Takes in the reply to the transaction that was due.
    pub fn deliver(&mut self, reply: Result<u8, i32>)
        requires
            old(self)@.wf(),
        ensures
            final(self)@.wf(),
            final(self)@ == old(self)@.after(reply),
    {
        if self.entries.len() >= self.addrs.len() {
            return ;
        }
        proof {
            // A bus that gives this reply.
            law_diag_step(
                self@,
                |sent: Seq<SmbusXfer>| reply,
                Seq::empty(),
            );
        }
        if self.blocks < BLOCKS {
            self.block.deliver(reply);
            if self.block.pending().is_none() {
                self.keep_block();
            }
        } else if self.latched {
            self.settle(
                match reply {
                    Ok(value) => Some(value),
                    Err(_) => None,
                },
            );
        } else if reply.is_ok() {
            self.latched = true;
        } else {
            self.settle(None);
        }
    }

    /// What was read from each controller; `None` while the reading has not ended.
    pub fn result(self) -> (entries: Option<Vec<DiagEntry>>)
        requires
            self@.wf(),
        ensures
            entries is Some == self@.done(),
            entries matches Some(list) ==> entry_views(list@) == self@.entries,
    {
        if self.entries.len() >= self.addrs.len() {
            Some(self.entries)
        } else {
            None
        }
    }
}

/// Sixteen bytes as an array.
fn first_sixteen(bytes: &Vec<u8>) -> (array: [u8; 16])
    requires
        bytes@.len() == 16,
    ensures
        array@ == bytes@,
{
    let mut array: [u8; 16] = [0u8; 16];
    let mut i: usize = 0;
    while i < 16
        invariant
            i <= 16,
            bytes@.len() == 16,
            forall|k: int| 0 <= k < i ==> #[trigger] array@[k] == bytes@[k],
        decreases 16 - i,
    {
        array[i] = bytes[i];
        i += 1;
    }
    assert(array@ =~= bytes@);
    array
}

/// Three bytes as an array.
fn first_three(bytes: &Vec<u8>) -> (array: [u8; 3])
    requires
        bytes@.len() == 3,
    ensures
        array@ == bytes@,
{
    let array: [u8; 3] = [bytes[0], bytes[1], bytes[2]];
    assert(array@ =~= bytes@);
    array
}

} // verus!
