//! Finding the ENE controllers on the SMBus: the address remap of G.Skill DIMMs, then the
//! detection of controllers at every address that the remap can have assigned.
//!
//! The procedure is a session. It says which transaction is due, takes in the reply, and goes
//! on from there.

use crate::backends::ene;
use crate::pawnio::SmbusXfer;
use vstd::prelude::*;

verus! {

/// The register that a DIMM's slot number is written to.
pub const ENE_REG_SLOT_INDEX: u16 = 0x80F8;

/// The register that a DIMM's new address is written to.
pub const ENE_REG_I2C_ADDRESS: u16 = 0x80F9;

/// The register range that holds a controller's maker.
pub const ENE_REG_MICRON_CHECK: u16 = 0x1030;

/// The address at which every DIMM listens until it is remapped.
pub const ENE_DEFAULT_ADDR: u8 = 0x77;

/// How many DIMM slots there are.
pub const ENE_MAX_DIMM_SLOTS: u8 = 8;

/// How many addresses a controller accepts.
pub const POOL_LEN: usize = 16;

/// How many bytes of the identification pattern are checked.
pub const PATTERN_LEN: u8 = 16;

/// The first register of the identification pattern.
pub const PATTERN_BASE: u8 = 0xA0;

/// How many bytes of the maker's name are read.
pub const NAME_LEN: usize = 16;

/// The addresses that a controller accepts when it is remapped, in ascending order.
pub open spec fn pool() -> Seq<u8> {
    seq![
        0x39u8,
        0x3Au8,
        0x3Bu8,
        0x3Cu8,
        0x3Du8,
        0x4Fu8,
        0x66u8,
        0x67u8,
        0x70u8,
        0x71u8,
        0x72u8,
        0x73u8,
        0x74u8,
        0x75u8,
        0x76u8,
        0x77u8,
    ]
}

/// The addresses that a controller accepts when it is remapped, in ascending order.
pub fn remap_pool() -> (list: [u8; 16])
    ensures
        list@ == pool(),
{
    let list: [u8; 16] = [
        0x39,
        0x3A,
        0x3B,
        0x3C,
        0x3D,
        0x4F,
        0x66,
        0x67,
        0x70,
        0x71,
        0x72,
        0x73,
        0x74,
        0x75,
        0x76,
        0x77,
    ];
    assert(list@ =~= pool());
    list
}

/// The bytes `Micron`.
pub open spec fn micron() -> Seq<u8> {
    seq![0x4Du8, 0x69u8, 0x63u8, 0x72u8, 0x6Fu8, 0x6Eu8]
}

/// A maker's name that belongs to a Crucial (Micron) DIMM, whose firmware is incompatible.
pub open spec fn is_micron(name: Seq<u8>) -> bool {
    name.len() >= 6 && name.take(6) == micron()
}

/// A 7-bit address in the 8-bit form that the address register takes.
pub open spec fn eight_bit(addr: u8) -> u8 {
    ((addr as nat * 2) % 256) as u8
}

// ---------------------------------------------------------------------------
// The procedure
// ---------------------------------------------------------------------------

/// Looks for the first pool address, from `next` on, at which nothing answers: the place after
/// the last address asked, and the free address if there was one.
pub open spec fn free_target_run(bus: ene::Bus, log: Seq<SmbusXfer>, next: nat) -> (
    Seq<SmbusXfer>,
    (nat, Option<u8>),
)
    decreases POOL_LEN - next,
{
    if next >= POOL_LEN {
        (log, (next, None))
    } else {
        let candidate = pool()[next as int];
        let (sent, taken) = ene::probe_run(bus, log, candidate);
        if taken {
            free_target_run(bus, sent, next + 1)
        } else {
            (sent, (next + 1, Some(candidate)))
        }
    }
}

/// Remaps the DIMMs that still listen at the default address, from slot `slot` and pool place
/// `next` on. It ends when nothing answers there any more, when the slots or the addresses
/// have run out, or when a write fails.
pub open spec fn remap_run(bus: ene::Bus, log: Seq<SmbusXfer>, slot: nat, next: nat) -> (
    Seq<SmbusXfer>,
    Result<(), i32>,
)
    decreases ENE_MAX_DIMM_SLOTS - slot,
{
    if slot >= ENE_MAX_DIMM_SLOTS {
        (log, Ok(()))
    } else {
        let (asked, present) = ene::probe_run(bus, log, ENE_DEFAULT_ADDR);
        if !present {
            (asked, Ok(()))
        } else {
            let (searched, (next2, target)) = free_target_run(bus, asked, next);
            match target {
                None => (searched, Ok(())),
                Some(target) => {
                    let (numbered, first) = ene::write_run(
                        bus,
                        searched,
                        ENE_DEFAULT_ADDR,
                        ENE_REG_SLOT_INDEX,
                        slot as u8,
                    );
                    match first {
                        Err(status) => (numbered, Err(status)),
                        Ok(_) => {
                            let (moved, second) = ene::write_run(
                                bus,
                                numbered,
                                ENE_DEFAULT_ADDR,
                                ENE_REG_I2C_ADDRESS,
                                eight_bit(target),
                            );
                            match second {
                                Err(status) => (moved, Err(status)),
                                Ok(_) => remap_run(bus, moved, slot + 1, next2),
                            }
                        },
                    }
                },
            }
        }
    }
}

/// Checks the identification pattern from `offset` on: the register at each offset must hold
/// the offset itself.
pub open spec fn pattern_run(bus: ene::Bus, log: Seq<SmbusXfer>, addr: u8, offset: nat) -> (
    Seq<SmbusXfer>,
    bool,
)
    decreases PATTERN_LEN - offset,
{
    if offset >= PATTERN_LEN {
        (log, true)
    } else {
        let (sent, reply) = ene::send(
            bus,
            log,
            SmbusXfer::ReadByte { addr, command: (PATTERN_BASE + offset) as u8 },
        );
        if reply == Ok::<u8, i32>(offset as u8) {
            pattern_run(bus, sent, addr, offset + 1)
        } else {
            (sent, false)
        }
    }
}

/// Reads the maker's name when the bytes in `name` have been read already, and tells whether
/// it was read in full and is not Micron's.
pub open spec fn name_run(bus: ene::Bus, log: Seq<SmbusXfer>, addr: u8, name: Seq<u8>) -> (
    Seq<SmbusXfer>,
    bool,
) {
    let (sent, (got, failed)) = ene::block_run(
        bus,
        log,
        addr,
        ENE_REG_MICRON_CHECK as nat,
        NAME_LEN as nat,
        name,
    );
    (sent, failed is None && !is_micron(got))
}

/// Tells whether a usable ENE controller is at an address: something answers there, it shows
/// the identification pattern, and its maker's name can be read and is not Micron's.
pub open spec fn controller_run(bus: ene::Bus, log: Seq<SmbusXfer>, addr: u8) -> (
    Seq<SmbusXfer>,
    bool,
) {
    let (asked, present) = ene::probe_run(bus, log, addr);
    if !present {
        (asked, false)
    } else {
        let (checked, ene_chip) = pattern_run(bus, asked, addr, 0);
        if !ene_chip {
            (checked, false)
        } else {
            name_run(bus, checked, addr, Seq::empty())
        }
    }
}

/// Checks the pool addresses from place `index` on and adds those with a controller to `found`.
pub open spec fn detect_run(bus: ene::Bus, log: Seq<SmbusXfer>, index: nat, found: Seq<u8>) -> (
    Seq<SmbusXfer>,
    Seq<u8>,
)
    decreases POOL_LEN - index,
{
    if index >= POOL_LEN {
        (log, found)
    } else {
        let (sent, usable) = controller_run(bus, log, pool()[index as int]);
        if usable {
            detect_run(bus, sent, index + 1, found.push(pool()[index as int]))
        } else {
            detect_run(bus, sent, index + 1, found)
        }
    }
}

/// Goes on with the detection after a remap, unless the remap failed.
pub open spec fn then_detect(bus: ene::Bus, remap: (Seq<SmbusXfer>, Result<(), i32>)) -> (
    Seq<SmbusXfer>,
    Result<Seq<u8>, i32>,
) {
    match remap.1 {
        Err(status) => (remap.0, Err(status)),
        Ok(_) => {
            let (sent, found) = detect_run(bus, remap.0, 0, Seq::empty());
            (sent, Ok(found))
        },
    }
}

/// The whole procedure: all transactions it sends, and the addresses of the controllers it
/// finds or the status of the write that failed.
pub open spec fn remap_and_detect_run(bus: ene::Bus) -> (Seq<SmbusXfer>, Result<Seq<u8>, i32>) {
    then_detect(bus, remap_run(bus, Seq::empty(), 0, 0))
}

// ---------------------------------------------------------------------------
// The session
// ---------------------------------------------------------------------------

/// Where a session stands.
#[derive(Debug, Clone, Copy, PartialEq, Eq, Structural)]
pub enum Stage {
    /// Asking whether a DIMM still listens at the default address.
    AskDefault,
    /// Asking whether a pool address is taken.
    AskTarget,
    /// Latching the slot register.
    SlotLatch,
    /// Storing the slot number.
    SlotStore,
    /// Latching the address register.
    AddressLatch,
    /// Storing the new address.
    AddressStore,
    /// Asking whether anything answers at a pool address.
    AskPresent,
    /// Reading one byte of the identification pattern.
    Pattern { offset: u8 },
    /// Latching one register of the maker's name.
    NameLatch,
    /// Fetching one byte of the maker's name.
    NameFetch,
    /// All pool addresses have been checked.
    Finished,
    /// A remap write failed.
    Failed { status: i32 },
}

/// The remap and detection, as far as it has come.
pub struct RemapSession {
    stage: Stage,
    slot: u8,
    next: usize,
    target: u8,
    index: usize,
    name: Vec<u8>,
    found: Vec<u8>,
}

/// A `RemapSession` as mathematical values.
pub struct RemapState {
    pub stage: Stage,
    pub slot: nat,
    pub next: nat,
    pub target: u8,
    pub index: nat,
    pub name: Seq<u8>,
    pub found: Seq<u8>,
}

impl View for RemapSession {
    type V = RemapState;

    closed spec fn view(&self) -> RemapState {
        RemapState {
            stage: self.stage,
            slot: self.slot as nat,
            next: self.next as nat,
            target: self.target,
            index: self.index as nat,
            name: self.name@,
            found: self.found@,
        }
    }
}

/// The state in which a session begins.
pub open spec fn first_state() -> RemapState {
    RemapState {
        stage: Stage::AskDefault,
        slot: 0,
        next: 0,
        target: 0,
        index: 0,
        name: Seq::empty(),
        found: Seq::empty(),
    }
}

impl RemapState {
    /// The counters are within their bounds.
    pub open spec fn wf(self) -> bool {
        &&& self.next <= POOL_LEN
        &&& match self.stage {
            Stage::AskDefault => self.slot < ENE_MAX_DIMM_SLOTS,
            Stage::AskTarget => self.slot < ENE_MAX_DIMM_SLOTS && self.next < POOL_LEN,
            Stage::SlotLatch | Stage::SlotStore | Stage::AddressLatch | Stage::AddressStore =>
                self.slot < ENE_MAX_DIMM_SLOTS,
            Stage::AskPresent => self.index < POOL_LEN,
            Stage::Pattern { offset } => self.index < POOL_LEN && offset < PATTERN_LEN,
            Stage::NameLatch | Stage::NameFetch => self.index < POOL_LEN && self.name.len()
                < NAME_LEN,
            Stage::Finished | Stage::Failed { .. } => true,
        }
    }

    /// Nothing is left to be sent.
    pub open spec fn done(self) -> bool {
        self.stage is Finished || self.stage is Failed
    }

    /// The transaction that is due.
    pub open spec fn due(self) -> SmbusXfer {
        let here = pool()[self.index as int];
        match self.stage {
            Stage::AskDefault => ene::ask(ENE_DEFAULT_ADDR),
            Stage::AskTarget => ene::ask(pool()[self.next as int]),
            Stage::SlotLatch => ene::latch(ENE_DEFAULT_ADDR, ENE_REG_SLOT_INDEX),
            Stage::SlotStore => ene::store(ENE_DEFAULT_ADDR, self.slot as u8),
            Stage::AddressLatch => ene::latch(ENE_DEFAULT_ADDR, ENE_REG_I2C_ADDRESS),
            Stage::AddressStore => ene::store(ENE_DEFAULT_ADDR, eight_bit(self.target)),
            Stage::AskPresent => ene::ask(here),
            Stage::Pattern { offset } => SmbusXfer::ReadByte {
                addr: here,
                command: (PATTERN_BASE + offset) as u8,
            },
            Stage::NameLatch => ene::latch(
                here,
                (ENE_REG_MICRON_CHECK + self.name.len()) as u16,
            ),
            Stage::NameFetch => ene::fetch(here),
            Stage::Finished | Stage::Failed { .. } => ene::ask(0),
        }
    }

    /// The remap is over: the detection begins at the first pool address.
    pub open spec fn detecting(self) -> RemapState {
        RemapState { stage: Stage::AskPresent, index: 0, found: Seq::empty(), ..self }
    }

    /// The address at hand is settled: on to the next one.
    pub open spec fn moved_on(self, found: Seq<u8>) -> RemapState {
        if self.index + 1 >= POOL_LEN {
            RemapState { stage: Stage::Finished, found, ..self }
        } else {
            RemapState { stage: Stage::AskPresent, index: self.index + 1, found, ..self }
        }
    }

    /// The state after the reply to the transaction that was due.
    pub open spec fn after(self, reply: Result<u8, i32>) -> RemapState {
        match self.stage {
            Stage::AskDefault => if reply is Ok && self.next < POOL_LEN {
                RemapState { stage: Stage::AskTarget, ..self }
            } else {
                self.detecting()
            },
            Stage::AskTarget => if reply is Err {
                RemapState {
                    stage: Stage::SlotLatch,
                    target: pool()[self.next as int],
                    next: self.next + 1,
                    ..self
                }
            } else if self.next + 1 < POOL_LEN {
                RemapState { next: self.next + 1, ..self }
            } else {
                RemapState { next: self.next + 1, ..self }.detecting()
            },
            Stage::SlotLatch => self.unless_failed(reply, Stage::SlotStore),
            Stage::SlotStore => self.unless_failed(reply, Stage::AddressLatch),
            Stage::AddressLatch => self.unless_failed(reply, Stage::AddressStore),
            Stage::AddressStore => match reply {
                Err(status) => RemapState { stage: Stage::Failed { status }, ..self },
                Ok(_) => if self.slot + 1 < ENE_MAX_DIMM_SLOTS {
                    RemapState { stage: Stage::AskDefault, slot: self.slot + 1, ..self }
                } else {
                    RemapState { slot: self.slot + 1, ..self }.detecting()
                },
            },
            Stage::AskPresent => if reply is Ok {
                RemapState { stage: Stage::Pattern { offset: 0 }, ..self }
            } else {
                self.moved_on(self.found)
            },
            Stage::Pattern { offset } => if reply != Ok::<u8, i32>(offset) {
                self.moved_on(self.found)
            } else if offset + 1 < PATTERN_LEN {
                RemapState { stage: Stage::Pattern { offset: (offset + 1) as u8 }, ..self }
            } else {
                RemapState { stage: Stage::NameLatch, name: Seq::empty(), ..self }
            },
            Stage::NameLatch => if reply is Ok {
                RemapState { stage: Stage::NameFetch, ..self }
            } else {
                self.moved_on(self.found)
            },
            Stage::NameFetch => match reply {
                Err(_) => self.moved_on(self.found),
                Ok(value) => {
                    let name = self.name.push(value);
                    if name.len() < NAME_LEN {
                        RemapState { stage: Stage::NameLatch, name, ..self }
                    } else if is_micron(name) {
                        RemapState { name, ..self }.moved_on(self.found)
                    } else {
                        RemapState { name, ..self }.moved_on(
                            self.found.push(pool()[self.index as int]),
                        )
                    }
                },
            },
            Stage::Finished | Stage::Failed { .. } => self,
        }
    }

    /// On to the given stage, unless the write failed.
    pub open spec fn unless_failed(self, reply: Result<u8, i32>, stage: Stage) -> RemapState {
        match reply {
            Err(status) => RemapState { stage: Stage::Failed { status }, ..self },
            Ok(_) => RemapState { stage, ..self },
        }
    }

    /// A bound on the number of transactions that can still follow.
    pub open spec fn left(self) -> nat {
        let slots = 2000 + (8 - self.slot) * 100;
        let places = (15 - self.index) * 64;
        (match self.stage {
            Stage::AskDefault => slots + 40,
            Stage::AskTarget => slots + 20 + (16 - self.next),
            Stage::SlotLatch => slots + 10,
            Stage::SlotStore => slots + 9,
            Stage::AddressLatch => slots + 8,
            Stage::AddressStore => slots + 7,
            Stage::AskPresent => places + 60,
            Stage::Pattern { offset } => places + 59 - offset,
            Stage::NameLatch => places + 42 - 2 * self.name.len(),
            Stage::NameFetch => places + 41 - 2 * self.name.len(),
            Stage::Finished | Stage::Failed { .. } => 0,
        }) as nat
    }

    /// What the session has come to, once it is done.
    pub open spec fn verdict(self) -> Result<Seq<u8>, i32> {
        match self.stage {
            Stage::Failed { status } => Err(status),
            _ => Ok(self.found),
        }
    }

    /// What the procedure comes to from here on.
    pub open spec fn outcome(self, bus: ene::Bus, log: Seq<SmbusXfer>) -> (
        Seq<SmbusXfer>,
        Result<Seq<u8>, i32>,
    ) {
        let here = pool()[self.index as int];
        match self.stage {
            Stage::AskDefault => then_detect(bus, remap_run(bus, log, self.slot, self.next)),
            Stage::AskTarget => {
                let (searched, (next, target)) = free_target_run(bus, log, self.next);
                match target {
                    None => then_detect(bus, (searched, Ok(()))),
                    Some(target) => RemapState {
                        stage: Stage::SlotLatch,
                        target,
                        next,
                        ..self
                    }.writing(bus, searched),
                }
            },
            Stage::SlotLatch | Stage::SlotStore | Stage::AddressLatch | Stage::AddressStore =>
                self.writing(bus, log),
            Stage::AskPresent => self.settled(bus, controller_run(bus, log, here)),
            Stage::Pattern { offset } => {
                let (checked, ene_chip) = pattern_run(bus, log, here, offset as nat);
                if ene_chip {
                    self.settled(bus, name_run(bus, checked, here, Seq::empty()))
                } else {
                    self.settled(bus, (checked, false))
                }
            },
            Stage::NameLatch => self.settled(bus, name_run(bus, log, here, self.name)),
            Stage::NameFetch => {
                let (sent, reply) = ene::send(bus, log, ene::fetch(here));
                match reply {
                    Err(_) => self.settled(bus, (sent, false)),
                    Ok(value) => self.settled(
                        bus,
                        name_run(bus, sent, here, self.name.push(value)),
                    ),
                }
            },
            Stage::Finished | Stage::Failed { .. } => (log, self.verdict()),
        }
    }

    /// What the procedure comes to from one of the four remap writes on.
    pub open spec fn writing(self, bus: ene::Bus, log: Seq<SmbusXfer>) -> (
        Seq<SmbusXfer>,
        Result<Seq<u8>, i32>,
    ) {
        if self.stage is SlotLatch {
            let (sent, reply) = ene::write_run(
                bus,
                log,
                ENE_DEFAULT_ADDR,
                ENE_REG_SLOT_INDEX,
                self.slot as u8,
            );
            self.moving(bus, sent, reply)
        } else if self.stage is SlotStore {
            let (sent, reply) = ene::send(
                bus,
                log,
                ene::store(ENE_DEFAULT_ADDR, self.slot as u8),
            );
            self.moving(bus, sent, reply)
        } else if self.stage is AddressLatch {
            let (sent, reply) = ene::write_run(
                bus,
                log,
                ENE_DEFAULT_ADDR,
                ENE_REG_I2C_ADDRESS,
                eight_bit(self.target),
            );
            self.moved(bus, sent, reply)
        } else {
            let (sent, reply) = ene::send(
                bus,
                log,
                ene::store(ENE_DEFAULT_ADDR, eight_bit(self.target)),
            );
            self.moved(bus, sent, reply)
        }
    }

    /// What the procedure comes to once the slot number has been written.
    pub open spec fn moving(
        self,
        bus: ene::Bus,
        log: Seq<SmbusXfer>,
        reply: Result<u8, i32>,
    ) -> (Seq<SmbusXfer>, Result<Seq<u8>, i32>) {
        match reply {
            Err(status) => (log, Err(status)),
            Ok(_) => {
                let (sent, second) = ene::write_run(
                    bus,
                    log,
                    ENE_DEFAULT_ADDR,
                    ENE_REG_I2C_ADDRESS,
                    eight_bit(self.target),
                );
                self.moved(bus, sent, second)
            },
        }
    }

    /// What the procedure comes to once the new address has been written.
    pub open spec fn moved(
        self,
        bus: ene::Bus,
        log: Seq<SmbusXfer>,
        reply: Result<u8, i32>,
    ) -> (Seq<SmbusXfer>, Result<Seq<u8>, i32>) {
        match reply {
            Err(status) => (log, Err(status)),
            Ok(_) => then_detect(bus, remap_run(bus, log, self.slot + 1, self.next)),
        }
    }

    /// What the procedure comes to once it is settled whether the address at hand has a
    /// controller.
    pub open spec fn settled(self, bus: ene::Bus, check: (Seq<SmbusXfer>, bool)) -> (
        Seq<SmbusXfer>,
        Result<Seq<u8>, i32>,
    ) {
        let found = if check.1 {
            self.found.push(pool()[self.index as int])
        } else {
            self.found
        };
        let (sent, all) = detect_run(bus, check.0, self.index + 1, found);
        (sent, Ok(all))
    }
}

/// Every step of a session keeps what the procedure comes to, and comes nearer to its end.
pub proof fn law_remap_step(s: RemapState, bus: ene::Bus, log: Seq<SmbusXfer>)
    requires
        s.wf(),
        !s.done(),
    ensures
        ({
            let (sent, reply) = ene::send(bus, log, s.due());
            &&& s.after(reply).wf()
            &&& s.after(reply).outcome(bus, sent) == s.outcome(bus, log)
            &&& s.after(reply).left() < s.left()
        }),
{
    reveal_with_fuel(remap_run, 2);
    reveal_with_fuel(free_target_run, 2);
    reveal_with_fuel(detect_run, 2);
    reveal_with_fuel(pattern_run, 2);
    reveal_with_fuel(ene::block_run, 2);
}

/// A session carried on for at most `steps` transactions on a bus.
pub open spec fn session_run(
    s: RemapState,
    bus: ene::Bus,
    log: Seq<SmbusXfer>,
    steps: nat,
) -> (RemapState, Seq<SmbusXfer>)
    decreases steps,
{
    if steps == 0 || s.done() {
        (s, log)
    } else {
        let (sent, reply) = ene::send(bus, log, s.due());
        session_run(s.after(reply), bus, sent, (steps - 1) as nat)
    }
}

/// A session that is carried on long enough ends, and comes to what its state says.
proof fn lemma_session_run(s: RemapState, bus: ene::Bus, log: Seq<SmbusXfer>, steps: nat)
    requires
        s.wf(),
        s.left() <= steps,
    ensures
        ({
            let (end, sent) = session_run(s, bus, log, steps);
            &&& end.done()
            &&& (sent, end.verdict()) == s.outcome(bus, log)
        }),
    decreases steps,
{
    if !s.done() {
        law_remap_step(s, bus, log);
        let (sent, reply) = ene::send(bus, log, s.due());
        lemma_session_run(s.after(reply), bus, sent, (steps - 1) as nat);
    }
}

/// The bound on the transactions of a whole session.
pub const MAX_STEPS: usize = 2840;

/// On every bus, a session ends, and it sends exactly the transactions of the procedure and
/// comes to exactly its result.
pub proof fn law_session_follows_procedure(bus: ene::Bus)
    ensures
        ({
            let (end, sent) = session_run(first_state(), bus, Seq::empty(), MAX_STEPS as nat);
            &&& end.done()
            &&& sent == remap_and_detect_run(bus).0
            &&& end.verdict() == remap_and_detect_run(bus).1
        }),
{
    lemma_session_run(first_state(), bus, Seq::empty(), MAX_STEPS as nat);
}

/// Whether the first six bytes of a maker's name spell `Micron`.
fn spells_micron(name: &Vec<u8>) -> (yes: bool)
    ensures
        yes == is_micron(name@),
{
    if name.len() < 6 {
        return false;
    }
    let yes = name[0] == 0x4D && name[1] == 0x69 && name[2] == 0x63 && name[3] == 0x72 && name[4]
        == 0x6F && name[5] == 0x6E;
    proof {
        if yes {
            assert(name@.take(6) =~= micron());
        } else if name@.take(6) == micron() {
            assert(name@.take(6)[0] == 0x4D);
            assert(name@.take(6)[1] == 0x69);
            assert(name@.take(6)[2] == 0x63);
            assert(name@.take(6)[3] == 0x72);
            assert(name@.take(6)[4] == 0x6F);
            assert(name@.take(6)[5] == 0x6E);
        }
    }
    yes
}

/// Begins the remap of the DIMMs that still listen at the default address, and then the
/// detection of the controllers at every pool address. If nothing answers at the default
/// address, the remap is skipped.
pub fn remap_and_detect() -> (session: RemapSession)
    ensures
        session@ == first_state(),
        session@.wf(),
        forall|bus: ene::Bus| #[trigger]
            session@.outcome(bus, Seq::empty()) == remap_and_detect_run(bus),
{
    let session = RemapSession {
        stage: Stage::AskDefault,
        slot: 0,
        next: 0,
        target: 0,
        index: 0,
        name: Vec::new(),
        found: Vec::new(),
    };
    assert(session@.name =~= Seq::<u8>::empty());
    assert(session@.found =~= Seq::<u8>::empty());
    session
}

impl RemapSession {
    /// The transaction that is due; `None` once the session has ended.
    pub fn pending(&self) -> (x: Option<SmbusXfer>)
        requires
            self@.wf(),
        ensures
            x == if self@.done() {
                None
            } else {
                Some(self@.due())
            },
    {
        let list = remap_pool();
        match self.stage {
            Stage::AskDefault => Some(
                SmbusXfer::ReadByte { addr: ENE_DEFAULT_ADDR, command: 0x00 },
            ),
            Stage::AskTarget => Some(SmbusXfer::ReadByte { addr: list[self.next], command: 0x00 }),
            Stage::SlotLatch => Some(ene::latch_xfer(ENE_DEFAULT_ADDR, ENE_REG_SLOT_INDEX)),
            Stage::SlotStore => Some(
                SmbusXfer::WriteByte {
                    addr: ENE_DEFAULT_ADDR,
                    command: ene::CMD_STORE,
                    value: self.slot,
                },
            ),
            Stage::AddressLatch => Some(ene::latch_xfer(ENE_DEFAULT_ADDR, ENE_REG_I2C_ADDRESS)),
            Stage::AddressStore => Some(
                SmbusXfer::WriteByte {
                    addr: ENE_DEFAULT_ADDR,
                    command: ene::CMD_STORE,
                    value: ((self.target as u16 * 2) % 256) as u8,
                },
            ),
            Stage::AskPresent => Some(
                SmbusXfer::ReadByte { addr: list[self.index], command: 0x00 },
            ),
            Stage::Pattern { offset } => Some(
                SmbusXfer::ReadByte { addr: list[self.index], command: PATTERN_BASE + offset },
            ),
            Stage::NameLatch => Some(
                ene::latch_xfer(
                    list[self.index],
                    ENE_REG_MICRON_CHECK + self.name.len() as u16,
                ),
            ),
            Stage::NameFetch => Some(
                SmbusXfer::ReadByte { addr: list[self.index], command: ene::CMD_FETCH },
            ),
            Stage::Finished | Stage::Failed { .. } => None,
        }
    }

    /// The remap is over: the detection begins at the first pool address.
    fn begin_detection(&mut self)
        ensures
            final(self)@ == old(self)@.detecting(),
    {
        self.stage = Stage::AskPresent;
        self.index = 0;
        self.found = Vec::new();
        assert(self.found@ =~= Seq::<u8>::empty());
    }

    /// The address at hand is settled: on to the next one.
    fn move_on(&mut self)
        requires
            old(self)@.index < POOL_LEN,
        ensures
            final(self)@ == old(self)@.moved_on(old(self)@.found),
    {
        if self.index + 1 >= POOL_LEN {
            self.stage = Stage::Finished;
        } else {
            self.stage = Stage::AskPresent;
            self.index += 1;
        }
    }

    /// Takes in the reply to the transaction that was due: the byte that was read (any byte
    /// for a write), or the status of the call that failed.
    pub fn deliver(&mut self, reply: Result<u8, i32>)
        requires
            old(self)@.wf(),
        ensures
            final(self)@.wf(),
            final(self)@ == old(self)@.after(reply),
    {
        let list = remap_pool();
        match self.stage {
            Stage::AskDefault => {
                if reply.is_ok() && self.next < POOL_LEN {
                    self.stage = Stage::AskTarget;
                } else {
                    self.begin_detection();
                }
            },
            Stage::AskTarget => {
                let candidate: u8 = list[self.next];
                self.next += 1;
                if reply.is_err() {
                    self.target = candidate;
                    self.stage = Stage::SlotLatch;
                } else if self.next >= POOL_LEN {
                    self.begin_detection();
                }
            },
            Stage::SlotLatch => match reply {
                Err(status) => self.stage = Stage::Failed { status },
                Ok(_) => self.stage = Stage::SlotStore,
            },
            Stage::SlotStore => match reply {
                Err(status) => self.stage = Stage::Failed { status },
                Ok(_) => self.stage = Stage::AddressLatch,
            },
            Stage::AddressLatch => match reply {
                Err(status) => self.stage = Stage::Failed { status },
                Ok(_) => self.stage = Stage::AddressStore,
            },
            Stage::AddressStore => match reply {
                Err(status) => self.stage = Stage::Failed { status },
                Ok(_) => {
                    self.slot += 1;
                    if self.slot < ENE_MAX_DIMM_SLOTS {
                        self.stage = Stage::AskDefault;
                    } else {
                        self.begin_detection();
                    }
                },
            },
            Stage::AskPresent => {
                if reply.is_ok() {
                    self.stage = Stage::Pattern { offset: 0 };
                } else {
                    self.move_on();
                }
            },
            Stage::Pattern { offset } => {
                let as_expected = match reply {
                    Ok(value) => value == offset,
                    Err(_) => false,
                };
                if !as_expected {
                    self.move_on();
                } else if offset + 1 < PATTERN_LEN {
                    self.stage = Stage::Pattern { offset: offset + 1 };
                } else {
                    self.name = Vec::new();
                    assert(self.name@ =~= Seq::<u8>::empty());
                    self.stage = Stage::NameLatch;
                }
            },
            Stage::NameLatch => {
                if reply.is_ok() {
                    self.stage = Stage::NameFetch;
                } else {
                    self.move_on();
                }
            },
            Stage::NameFetch => match reply {
                Err(_) => self.move_on(),
                Ok(value) => {
                    self.name.push(value);
                    if self.name.len() < NAME_LEN {
                        self.stage = Stage::NameLatch;
                    } else {
                        if !spells_micron(&self.name) {
                            self.found.push(list[self.index]);
                        }
                        self.move_on();
                    }
                },
            },
            Stage::Finished | Stage::Failed { .. } => {},
        }
    }

    /// The addresses of the controllers found, or the status of the write that failed; `None`
    /// while the session has not ended.
    pub fn result(self) -> (r: Option<Result<Vec<u8>, i32>>)
        ensures
            r is Some == self@.done(),
            r matches Some(Ok(found)) ==> self@.verdict() == Ok::<Seq<u8>, i32>(found@),
            r matches Some(Err(status)) ==> self@.verdict() == Err::<Seq<u8>, i32>(status),
    {
        match self.stage {
            Stage::Finished => Some(Ok(self.found)),
            Stage::Failed { status } => Some(Err(status)),
            _ => None,
        }
    }
}

} // verus!
