//! The register protocol of ENE lighting controllers: 16-bit registers over SMBus.
//!
//! A register is reached in two transactions. The first latches the register's number, the
//! second moves one byte.

use crate::pawnio::SmbusXfer;
use crate::wire;
use vstd::prelude::*;

verus! {

/// The SMBus command that latches a register number.
pub const CMD_LATCH: u8 = 0x00;

/// The SMBus command that stores a byte in the latched register.
pub const CMD_STORE: u8 = 0x01;

/// The SMBus command that fetches the byte in the latched register.
pub const CMD_FETCH: u8 = 0x81;

// ---------------------------------------------------------------------------
// Transactions
// ---------------------------------------------------------------------------

/// Latches a register number (big-endian on the wire).
pub open spec fn latch(addr: u8, reg: u16) -> SmbusXfer {
    SmbusXfer::WriteWord { addr, command: CMD_LATCH, word: wire::swapped(reg) }
}

/// Stores a byte in the latched register.
pub open spec fn store(addr: u8, value: u8) -> SmbusXfer {
    SmbusXfer::WriteByte { addr, command: CMD_STORE, value }
}

/// Fetches the byte in the latched register.
pub open spec fn fetch(addr: u8) -> SmbusXfer {
    SmbusXfer::ReadByte { addr, command: CMD_FETCH }
}

/// The transaction that asks whether anything answers at an address. A byte-data read of
/// register zero is a reliable sign across SMBus controllers.
pub open spec fn ask(addr: u8) -> SmbusXfer {
    SmbusXfer::ReadByte { addr, command: 0x00 }
}

/// The transactions that write a register.
pub open spec fn write_xfers(addr: u8, reg: u16, value: u8) -> Seq<SmbusXfer> {
    seq![latch(addr, reg), store(addr, value)]
}

/// The transactions that read a register.
pub open spec fn read_xfers(addr: u8, reg: u16) -> Seq<SmbusXfer> {
    seq![latch(addr, reg), fetch(addr)]
}

/// Latches a register number.
pub fn latch_xfer(addr: u8, reg: u16) -> (x: SmbusXfer)
    ensures
        x == latch(addr, reg),
{
    SmbusXfer::WriteWord { addr, command: CMD_LATCH, word: wire::swap_bytes(reg) }
}

/// The transactions that write a register.
pub fn ene_write(addr: u8, reg: u16, value: u8) -> (list: Vec<SmbusXfer>)
    ensures
        list@ == write_xfers(addr, reg, value),
{
    let list = vec![
        latch_xfer(addr, reg),
        SmbusXfer::WriteByte { addr, command: CMD_STORE, value },
    ];
    assert(list@ =~= write_xfers(addr, reg, value));
    list
}

/// The transactions that read a register; the second one brings the byte.
pub fn ene_read(addr: u8, reg: u16) -> (list: Vec<SmbusXfer>)
    ensures
        list@ == read_xfers(addr, reg),
{
    let list = vec![latch_xfer(addr, reg), SmbusXfer::ReadByte { addr, command: CMD_FETCH }];
    assert(list@ =~= read_xfers(addr, reg));
    list
}

// ---------------------------------------------------------------------------
// The bus, and what procedures do on it
// ---------------------------------------------------------------------------

/// A bus: what it replies to the last of the transactions sent so far. Whatever the devices
/// on it do is a function of this kind.
pub type Bus = spec_fn(Seq<SmbusXfer>) -> Result<u8, i32>;

/// Sends one transaction: all that has been sent then, and the reply.
pub open spec fn send(bus: Bus, log: Seq<SmbusXfer>, x: SmbusXfer) -> (Seq<SmbusXfer>, Result<
    u8,
    i32,
>) {
    (log.push(x), bus(log.push(x)))
}

/// Asks whether anything answers at an address.
pub open spec fn probe_run(bus: Bus, log: Seq<SmbusXfer>, addr: u8) -> (Seq<SmbusXfer>, bool) {
    let (sent, reply) = send(bus, log, ask(addr));
    (sent, reply is Ok)
}

/// Writes a register, stopping at the first failure.
pub open spec fn write_run(bus: Bus, log: Seq<SmbusXfer>, addr: u8, reg: u16, value: u8) -> (
    Seq<SmbusXfer>,
    Result<u8, i32>,
) {
    let (latched, reply) = send(bus, log, latch(addr, reg));
    match reply {
        Err(status) => (latched, Err(status)),
        Ok(_) => send(bus, latched, store(addr, value)),
    }
}

/// Reads a register, stopping at the first failure.
pub open spec fn read_run(bus: Bus, log: Seq<SmbusXfer>, addr: u8, reg: u16) -> (
    Seq<SmbusXfer>,
    Result<u8, i32>,
) {
    let (latched, reply) = send(bus, log, latch(addr, reg));
    match reply {
        Err(status) => (latched, Err(status)),
        Ok(_) => send(bus, latched, fetch(addr)),
    }
}

/// The register at a place of a block. After the last register comes the first one again.
pub open spec fn block_reg(start: nat, place: nat) -> u16 {
    ((start + place) % 0x1_0000) as u16
}

/// Reads `len` registers from `start` on, one after another, when the bytes in `got` have been
/// read already: the bytes read, and the status that ended the reading early, if one did.
pub open spec fn block_run(
    bus: Bus,
    log: Seq<SmbusXfer>,
    addr: u8,
    start: nat,
    len: nat,
    got: Seq<u8>,
) -> (Seq<SmbusXfer>, (Seq<u8>, Option<i32>))
    decreases len - got.len(),
{
    if got.len() >= len {
        (log, (got, None))
    } else {
        let (sent, reply) = read_run(bus, log, addr, block_reg(start, got.len()));
        match reply {
            Err(status) => (sent, (got, Some(status))),
            Ok(value) => block_run(bus, sent, addr, start, len, got.push(value)),
        }
    }
}

// ---------------------------------------------------------------------------
// Reading a block, step by step
// ---------------------------------------------------------------------------

/// The reading of a block of registers, as far as it has come.
pub struct BlockRead {
    addr: u8,
    start: u16,
    len: usize,
    got: Vec<u8>,
    latched: bool,
    failed: Option<i32>,
}

/// A `BlockRead` as mathematical values.
pub struct BlockState {
    pub addr: u8,
    pub start: nat,
    pub len: nat,
    pub got: Seq<u8>,
    pub latched: bool,
    pub failed: Option<i32>,
}

impl View for BlockRead {
    type V = BlockState;

    closed spec fn view(&self) -> BlockState {
        BlockState {
            addr: self.addr,
            start: self.start as nat,
            len: self.len as nat,
            got: self.got@,
            latched: self.latched,
            failed: self.failed,
        }
    }
}

impl BlockState {
    /// The block lies within the register space or begins with its first register, and no more
    /// has been read than was asked for.
    pub open spec fn wf(self) -> bool {
        &&& self.start == 0 || self.start + self.len <= 0x1_0000
        &&& self.got.len() <= self.len
        &&& self.latched ==> self.got.len() < self.len && self.failed is None
    }

    /// Nothing is left to be sent.
    pub open spec fn done(self) -> bool {
        self.failed is Some || self.got.len() >= self.len
    }

    /// The transaction that is due.
    pub open spec fn due(self) -> SmbusXfer {
        if self.latched {
            fetch(self.addr)
        } else {
            latch(self.addr, block_reg(self.start, self.got.len()))
        }
    }

    /// The state after the reply to the transaction that was due.
    pub open spec fn after(self, reply: Result<u8, i32>) -> BlockState {
        if self.done() {
            self
        } else {
            match reply {
                Err(status) => BlockState { latched: false, failed: Some(status), ..self },
                Ok(value) => if self.latched {
                    BlockState { latched: false, got: self.got.push(value), ..self }
                } else {
                    BlockState { latched: true, ..self }
                },
            }
        }
    }

    /// How many transactions can still follow.
    pub open spec fn left(self) -> nat {
        if self.done() {
            0
        } else {
            (2 * (self.len - self.got.len()) - if self.latched {
                1int
            } else {
                0
            }) as nat
        }
    }

    /// What the reading comes to from here on.
    pub open spec fn outcome(self, bus: Bus, log: Seq<SmbusXfer>) -> (
        Seq<SmbusXfer>,
        (Seq<u8>, Option<i32>),
    ) {
        if self.done() {
            (log, (self.got, self.failed))
        } else if self.latched {
            let (sent, reply) = send(bus, log, fetch(self.addr));
            match reply {
                Err(status) => (sent, (self.got, Some(status))),
                Ok(value) => block_run(
                    bus,
                    sent,
                    self.addr,
                    self.start,
                    self.len,
                    self.got.push(value),
                ),
            }
        } else {
            block_run(bus, log, self.addr, self.start, self.len, self.got)
        }
    }
}

/// The bytes of a block after an early end: what was read, the rest zero.
pub open spec fn zero_filled(got: Seq<u8>, len: nat) -> Seq<u8> {
    Seq::new(len, |i: int| if i < got.len() { got[i] } else { 0u8 })
}

/// Every step of a block reading keeps what the reading comes to, and comes nearer to its end.
pub proof fn law_block_step(s: BlockState, bus: Bus, log: Seq<SmbusXfer>)
    requires
        s.wf(),
        !s.done(),
    ensures
        ({
            let (sent, reply) = send(bus, log, s.due());
            &&& s.after(reply).wf()
            &&& s.after(reply).outcome(bus, sent) == s.outcome(bus, log)
            &&& s.after(reply).left() < s.left()
        }),
{
    reveal_with_fuel(block_run, 2);
}

/// A block reading carried on for at most `steps` transactions.
pub open spec fn block_session_run(
    s: BlockState,
    bus: Bus,
    log: Seq<SmbusXfer>,
    steps: nat,
) -> (BlockState, Seq<SmbusXfer>)
    decreases steps,
{
    if steps == 0 || s.done() {
        (s, log)
    } else {
        let (sent, reply) = send(bus, log, s.due());
        block_session_run(s.after(reply), bus, sent, (steps - 1) as nat)
    }
}

/// On every bus, a block reading that is carried on long enough ends, and it sends exactly the
/// transactions of the procedure and comes to exactly its bytes.
pub proof fn law_block_session_follows_procedure(
    s: BlockState,
    bus: Bus,
    log: Seq<SmbusXfer>,
    steps: nat,
)
    requires
        s.wf(),
        s.left() <= steps,
    ensures
        ({
            let (end, sent) = block_session_run(s, bus, log, steps);
            &&& end.done()
            &&& (sent, (end.got, end.failed)) == s.outcome(bus, log)
        }),
    decreases steps,
{
    if !s.done() {
        law_block_step(s, bus, log);
        let (sent, reply) = send(bus, log, s.due());
        law_block_session_follows_procedure(s.after(reply), bus, sent, (steps - 1) as nat);
    }
}

/// Starts reading `len` registers from `start_reg` on: one register read per byte, since the
/// 16-bit register space has no block reads. A block that begins with the first register may
/// go round the register space.
pub fn ene_read_block(addr: u8, start_reg: u16, len: usize) -> (block: BlockRead)
    requires
        start_reg == 0 || start_reg + len <= 0x1_0000,
    ensures
        block@.wf(),
        block@ == (BlockState {
            addr,
            start: start_reg as nat,
            len: len as nat,
            got: Seq::empty(),
            latched: false,
            failed: None,
        }),
        forall|bus: Bus, log: Seq<SmbusXfer>| #[trigger]
            block@.outcome(bus, log) == block_run(
                bus,
                log,
                addr,
                start_reg as nat,
                len as nat,
                Seq::empty(),
            ),
{
    let block = BlockRead {
        addr,
        start: start_reg,
        len,
        got: Vec::new(),
        latched: false,
        failed: None,
    };
    assert(block@.got =~= Seq::<u8>::empty());
    block
}

impl BlockRead {
    /// The transaction that is due; `None` once the reading has ended.
    pub fn pending(&self) -> (x: Option<SmbusXfer>)
        requires
            self@.wf(),
        ensures
            x == if self@.done() {
                None
            } else {
                Some(self@.due())
            },
    {
        if self.failed.is_some() || self.got.len() >= self.len {
            None
        } else if self.latched {
            Some(SmbusXfer::ReadByte { addr: self.addr, command: CMD_FETCH })
        } else {
            let offset: u16 = (self.got.len() % 0x1_0000) as u16;
            Some(latch_xfer(self.addr, self.start + offset))
        }
    }

    /// Takes in the reply to the transaction that was due.
    pub fn deliver(&mut self, reply: Result<u8, i32>)
        requires
            old(self)@.wf(),
        ensures
            final(self)@.wf(),
            final(self)@ == old(self)@.after(reply),
    {
        if self.failed.is_some() || self.got.len() >= self.len {
            return ;
        }
        match reply {
            Err(status) => {
                self.latched = false;
                self.failed = Some(status);
            },
            Ok(value) => {
                if self.latched {
                    self.latched = false;
                    self.got.push(value);
                } else {
                    self.latched = true;
                }
            },
        }
    }

    /// The status that ended the reading early, if one did.
    pub fn failure(&self) -> (status: Option<i32>)
        ensures
            status == self@.failed,
    {
        self.failed
    }

    /// The bytes of the block: those that were read, the rest zero.
    pub fn bytes(&self) -> (all: Vec<u8>)
        requires
            self@.wf(),
        ensures
            all@ == zero_filled(self@.got, self@.len),
    {
        let mut all: Vec<u8> = Vec::new();
        let mut i: usize = 0;
        while i < self.len
            invariant
                i <= self.len,
                self@.wf(),
                all@ == zero_filled(self@.got, self@.len).take(i as int),
            decreases self.len - i,
        {
            let value: u8 = if i < self.got.len() {
                self.got[i]
            } else {
                0
            };
            all.push(value);
            i += 1;
            assert(all@ =~= zero_filled(self@.got, self@.len).take(i as int));
        }
        assert(all@ =~= zero_filled(self@.got, self@.len));
        all
    }
}

// ---------------------------------------------------------------------------
// Sending a row of transactions, step by step
// ---------------------------------------------------------------------------

/// Sends the transactions from place `at` on, stopping at the first failure: the status of the
/// transaction that failed, if one did.
pub open spec fn list_run(bus: Bus, log: Seq<SmbusXfer>, list: Seq<SmbusXfer>, at: nat) -> (
    Seq<SmbusXfer>,
    Option<i32>,
)
    decreases list.len() - at,
{
    if at >= list.len() {
        (log, None)
    } else {
        let (sent, reply) = send(bus, log, list[at as int]);
        match reply {
            Err(status) => (sent, Some(status)),
            Ok(_) => list_run(bus, sent, list, at + 1),
        }
    }
}

/// The sending of a row of transactions, as far as it has come.
pub struct ListRun {
    list: Vec<SmbusXfer>,
    at: usize,
    failed: Option<i32>,
}

/// A `ListRun` as mathematical values.
pub struct ListState {
    pub list: Seq<SmbusXfer>,
    pub at: nat,
    pub failed: Option<i32>,
}

impl View for ListRun {
    type V = ListState;

    closed spec fn view(&self) -> ListState {
        ListState { list: self.list@, at: self.at as nat, failed: self.failed }
    }
}

impl ListState {
    /// Nothing is left to be sent.
    pub open spec fn done(self) -> bool {
        self.failed is Some || self.at >= self.list.len()
    }

    /// The state after the reply to the transaction that was due.
    pub open spec fn after(self, reply: Result<u8, i32>) -> ListState {
        if self.done() {
            self
        } else {
            match reply {
                Err(status) => ListState { failed: Some(status), ..self },
                Ok(_) => ListState { at: self.at + 1, ..self },
            }
        }
    }

    /// What the sending comes to from here on.
    pub open spec fn outcome(self, bus: Bus, log: Seq<SmbusXfer>) -> (
        Seq<SmbusXfer>,
        Option<i32>,
    ) {
        if self.failed is Some {
            (log, self.failed)
        } else {
            list_run(bus, log, self.list, self.at)
        }
    }
}

/// Every step of a sending keeps what it comes to, and comes nearer to its end.
pub proof fn law_list_step(s: ListState, bus: Bus, log: Seq<SmbusXfer>)
    requires
        !s.done(),
    ensures
        ({
            let (sent, reply) = send(bus, log, s.list[s.at as int]);
            &&& s.after(reply).outcome(bus, sent) == s.outcome(bus, log)
            &&& s.after(reply).failed is Some || s.after(reply).at == s.at + 1
        }),
{
    reveal_with_fuel(list_run, 2);
}

/// A sending carried on for at most `steps` transactions.
pub open spec fn list_session_run(
    s: ListState,
    bus: Bus,
    log: Seq<SmbusXfer>,
    steps: nat,
) -> (ListState, Seq<SmbusXfer>)
    decreases steps,
{
    if steps == 0 || s.done() {
        (s, log)
    } else {
        let (sent, reply) = send(bus, log, s.list[s.at as int]);
        list_session_run(s.after(reply), bus, sent, (steps - 1) as nat)
    }
}

/// On every bus, a sending that is carried on long enough ends, and it sends exactly the
/// transactions of the procedure and comes to exactly its result.
pub proof fn law_list_session_follows_procedure(
    s: ListState,
    bus: Bus,
    log: Seq<SmbusXfer>,
    steps: nat,
)
    requires
        s.list.len() <= s.at + steps,
    ensures
        ({
            let (end, sent) = list_session_run(s, bus, log, steps);
            &&& end.done()
            &&& (sent, end.failed) == s.outcome(bus, log)
        }),
    decreases steps,
{
    if !s.done() {
        law_list_step(s, bus, log);
        let (sent, reply) = send(bus, log, s.list[s.at as int]);
        let next = s.after(reply);
        if next.failed is None {
            law_list_session_follows_procedure(next, bus, sent, (steps - 1) as nat);
        }
    }
}

/// What is sent is the row itself, or its beginning up to the first transaction that failed; it
/// is the whole row, and every transaction succeeded, exactly when there is no failure.
pub proof fn law_list_is_sent_up_to_a_failure(
    bus: Bus,
    log: Seq<SmbusXfer>,
    list: Seq<SmbusXfer>,
    at: nat,
)
    requires
        at <= list.len(),
    ensures
        ({
            let (sent, failed) = list_run(bus, log, list, at);
            let n = sent.len() - log.len();
            &&& 0 <= n <= list.len() - at
            &&& sent == log + list.subrange(at as int, at + n)
            &&& failed is None ==> n == list.len() - at && (n > 0 ==> bus(sent) is Ok)
            &&& failed matches Some(status) ==> n > 0 && bus(sent) == Err::<u8, i32>(status)
            &&& forall|k: int|
                0 < k < n ==> bus(log + #[trigger] list.subrange(at as int, at + k)) is Ok
        }),
    decreases list.len() - at,
{
    if at < list.len() {
        let sent = log.push(list[at as int]);
        if bus(sent) is Ok {
            law_list_is_sent_up_to_a_failure(bus, sent, list, at + 1);
            let (end, failed) = list_run(bus, sent, list, at + 1);
            let n = end.len() - sent.len();
            assert(end =~= log + list.subrange(at as int, at + 1 + n));
            assert forall|k: int| 0 < k < n + 1 implies bus(
                log + #[trigger] list.subrange(at as int, at + k),
            ) is Ok by {
                let later = list.subrange(at + 1int, at + k);
                assert(log + list.subrange(at as int, at + k) =~= sent + later);
                if k == 1 {
                    assert(sent + later =~= sent);
                } else {
                    assert(later == list.subrange((at + 1) as int, (at + 1) + (k - 1)));
                }
            }
        } else {
            assert(sent =~= log + list.subrange(at as int, at + 1int));
        }
    } else {
        assert(log =~= log + list.subrange(at as int, at as int));
    }
}

impl ListRun {
    /// Begins the sending of a row of transactions.
    pub fn start(list: Vec<SmbusXfer>) -> (run: Self)
        ensures
            run@ == (ListState { list: list@, at: 0, failed: None }),
            forall|bus: Bus, log: Seq<SmbusXfer>| #[trigger]
                run@.outcome(bus, log) == list_run(bus, log, list@, 0),
    {
        ListRun { list, at: 0, failed: None }
    }

    /// The transaction that is due; `None` once the sending has ended.
    pub fn pending(&self) -> (x: Option<SmbusXfer>)
        ensures
            x == if self@.done() {
                None
            } else {
                Some(self@.list[self@.at as int])
            },
    {
        if self.failed.is_some() || self.at >= self.list.len() {
            None
        } else {
            Some(self.list[self.at])
        }
    }

    /// Takes in the reply to the transaction that was due.
    pub fn deliver(&mut self, reply: Result<u8, i32>)
        ensures
            final(self)@ == old(self)@.after(reply),
    {
        if self.failed.is_some() || self.at >= self.list.len() {
            return ;
        }
        match reply {
            Err(status) => self.failed = Some(status),
            Ok(_) => self.at += 1,
        }
    }

    /// The status of the transaction that failed, if one did.
    pub fn failure(&self) -> (status: Option<i32>)
        ensures
            status == self@.failed,
    {
        self.failed
    }
}

// ---------------------------------------------------------------------------
// A model of the chip
// ---------------------------------------------------------------------------

/// A controller: the register number it has latched and the bytes its registers hold.
pub struct EneChip {
    pub latched: u16,
    pub regs: Map<u16, u8>,
}

/// What a transaction does to the chip at an address.
pub open spec fn chip_after(chip: EneChip, addr: u8, x: SmbusXfer) -> EneChip {
    match x {
        SmbusXfer::WriteWord { addr: a, command, word } => if a == addr && command == CMD_LATCH {
            EneChip { latched: wire::swapped(word), ..chip }
        } else {
            chip
        },
        SmbusXfer::WriteByte { addr: a, command, value } => if a == addr && command == CMD_STORE {
            EneChip { regs: chip.regs.insert(chip.latched, value), ..chip }
        } else {
            chip
        },
        SmbusXfer::ReadByte { .. } => chip,
    }
}

/// What a row of transactions does to the chip at an address.
pub open spec fn chip_after_all(chip: EneChip, addr: u8, list: Seq<SmbusXfer>) -> EneChip
    decreases list.len(),
{
    if list.len() == 0 {
        chip
    } else {
        chip_after(chip_after_all(chip, addr, list.drop_last()), addr, list.last())
    }
}

/// What a register of a chip holds, where the model says so.
pub open spec fn held(chip: EneChip, reg: u16) -> Option<u8> {
    if chip.regs.dom().contains(reg) {
        Some(chip.regs[reg])
    } else {
        None
    }
}

/// The byte that a fetch brings from a chip.
pub open spec fn fetched(chip: EneChip) -> u8 {
    chip.regs[chip.latched]
}

/// Two rows of transactions one after the other.
pub proof fn lemma_chip_after_two(chip: EneChip, addr: u8, a: Seq<SmbusXfer>, b: Seq<SmbusXfer>)
    ensures
        chip_after_all(chip, addr, a + b) == chip_after_all(chip_after_all(chip, addr, a), addr, b),
    decreases b.len(),
{
    if b.len() == 0 {
        assert(a + b =~= a);
    } else {
        lemma_chip_after_two(chip, addr, a, b.drop_last());
        assert((a + b).drop_last() =~= a + b.drop_last());
    }
}

/// Writing a register puts the byte into that register and changes no other.
pub proof fn law_write_lands(chip: EneChip, addr: u8, reg: u16, value: u8)
    ensures
        chip_after_all(chip, addr, write_xfers(addr, reg, value)) == (EneChip {
            latched: reg,
            regs: chip.regs.insert(reg, value),
        }),
{
    reveal_with_fuel(chip_after_all, 3);
    let list = write_xfers(addr, reg, value);
    assert(list.drop_last() =~= seq![latch(addr, reg)]);
    assert(list.drop_last().drop_last() =~= Seq::empty());
    wire::law_swap_undoes_itself(reg);
}

/// Reading a register brings the byte that the last write to it stored, whatever else the
/// register held before.
pub proof fn law_read_gives_back_write(chip: EneChip, addr: u8, reg: u16, value: u8)
    ensures
        fetched(
            chip_after_all(
                chip,
                addr,
                write_xfers(addr, reg, value) + seq![latch(addr, reg)],
            ),
        ) == value,
        read_xfers(addr, reg) == seq![latch(addr, reg)].push(fetch(addr)),
{
    law_write_lands(chip, addr, reg, value);
    lemma_chip_after_two(chip, addr, write_xfers(addr, reg, value), seq![latch(addr, reg)]);
    reveal_with_fuel(chip_after_all, 2);
    assert(seq![latch(addr, reg)].drop_last() =~= Seq::empty());
    wire::law_swap_undoes_itself(reg);
    assert(read_xfers(addr, reg) =~= seq![latch(addr, reg)].push(fetch(addr)));
}

/// A transaction with one address leaves the chip at another address as it was.
pub proof fn law_other_chips_untouched(chip: EneChip, addr: u8, other: u8, reg: u16, value: u8)
    requires
        addr != other,
    ensures
        chip_after_all(chip, other, write_xfers(addr, reg, value)) == chip,
{
    reveal_with_fuel(chip_after_all, 3);
    let list = write_xfers(addr, reg, value);
    assert(list.drop_last() =~= seq![latch(addr, reg)]);
    assert(list.drop_last().drop_last() =~= Seq::empty());
}

} // verus!
