//! What a diagnostic reading brings of the registers of the controllers on the bus.

use crate::backends::diag::{self, DiagEntryView};
use crate::backends::ene;
use crate::pawnio::SmbusXfer;
use vstd::prelude::*;

verus! {

// ---------------------------------------------------------------------------
// A bus of registers
// ---------------------------------------------------------------------------

/// What the registers of the controllers hold, by address and register; nothing where a register
/// cannot be read.
pub type Contents = spec_fn(u8, u16) -> Option<u8>;

/// The register that was last latched at an address: the word of command 0x00, the high byte
/// first on the wire.
pub open spec fn latched_at(sent: Seq<SmbusXfer>, addr: u8) -> u16
    decreases sent.len(),
{
    if sent.len() == 0 {
        0
    } else {
        match sent.last() {
            SmbusXfer::WriteWord { addr: a, command, word } => if a == addr && command == 0x00 {
                ((word % 256) * 256 + word / 256) as u16
            } else {
                latched_at(sent.drop_last(), addr)
            },
            _ => latched_at(sent.drop_last(), addr),
        }
    }
}

/// A bus on which command 0x81 reads the latched register, and every latch succeeds.
pub open spec fn register_bus(contents: Contents) -> ene::Bus {
    |sent: Seq<SmbusXfer>|
        if sent.len() == 0 {
            Err::<u8, i32>(1i32)
        } else {
            match sent.last() {
                SmbusXfer::ReadByte { addr, command } => if command == 0x81 {
                    match contents(addr, latched_at(sent, addr)) {
                        Some(value) => Ok(value),
                        None => Err(1i32),
                    }
                } else {
                    Err(1i32)
                },
                _ => Ok(0),
            }
        }
}

/// A register is read by its number.
pub proof fn law_read_brings_the_register(
    contents: Contents,
    log: Seq<SmbusXfer>,
    addr: u8,
    reg: u16,
)
    ensures
        ene::read_run(register_bus(contents), log, addr, reg).1 == match contents(addr, reg) {
            Some(value) => Ok::<u8, i32>(value),
            None => Err(1i32),
        },
{
    let bus = register_bus(contents);
    let one = log.push(ene::latch(addr, reg));
    let two = one.push(ene::fetch(addr));
    assert(two.drop_last() =~= one);
    assert(latched_at(one, addr) == reg);
    assert(latched_at(two, addr) == latched_at(two.drop_last(), addr));
}

/// A block is read register by register from `start` on, round the end of the register space,
/// up to the first register that cannot be read: every byte is what its register holds, and
/// there is a failure exactly where one could not be read.
pub proof fn law_block_brings_the_registers(
    contents: Contents,
    log: Seq<SmbusXfer>,
    addr: u8,
    start: nat,
    len: nat,
    got: Seq<u8>,
)
    requires
        got.len() <= len,
    ensures
        ({
            let (bytes, failed) = ene::block_run(
                register_bus(contents),
                log,
                addr,
                start,
                len,
                got,
            ).1;
            &&& got.len() <= bytes.len() <= len
            &&& bytes.take(got.len() as int) == got
            &&& forall|k: int|
                got.len() <= k < bytes.len() ==> contents(addr, ((start + k) % 0x1_0000) as u16)
                    == Some(#[trigger] bytes[k])
            &&& failed is None <==> bytes.len() == len
            &&& failed is Some ==> contents(addr, ((start + bytes.len()) % 0x1_0000) as u16) is None
        }),
    decreases len - got.len(),
{
    assert(got.take(got.len() as int) =~= got);
    if got.len() < len {
        let bus = register_bus(contents);
        let reg = ene::block_reg(start, got.len());
        law_read_brings_the_register(contents, log, addr, reg);
        let (sent, reply) = ene::read_run(bus, log, addr, reg);
        if let Ok(value) = reply {
            let more = got.push(value);
            law_block_brings_the_registers(contents, sent, addr, start, len, more);
            let bytes = ene::block_run(bus, sent, addr, start, len, more).1.0;
            assert(bytes.take(got.len() as int) =~= bytes.take(more.len() as int).take(
                got.len() as int,
            ));
            assert(bytes[got.len() as int] == bytes.take(more.len() as int)[got.len() as int]);
        }
    }
}

// ---------------------------------------------------------------------------
// Entries
// ---------------------------------------------------------------------------

/// All registers from `start` up to and with the one `k` further on can be read.
pub open spec fn readable(contents: Contents, addr: u8, start: int, k: int) -> bool {
    forall|j: int| 0 <= j <= k ==> (#[trigger] contents(addr, (start + j) as u16)) is Some
}

/// The bytes are those of the registers from `start` on, up to the first that cannot be read,
/// and zero from there on.
pub open spec fn bytes_from(contents: Contents, addr: u8, start: int, len: nat) -> Seq<u8> {
    Seq::new(
        len,
        |k: int|
            if readable(contents, addr, start, k) {
                contents(addr, (start + k) as u16).unwrap()
            } else {
                0u8
            },
    )
}

proof fn lemma_block_bytes(
    contents: Contents,
    log: Seq<SmbusXfer>,
    addr: u8,
    start: nat,
    len: nat,
)
    requires
        start + len <= 0x1_0000,
    ensures
        ene::zero_filled(
            ene::block_run(register_bus(contents), log, addr, start, len, Seq::empty()).1.0,
            len,
        ) == bytes_from(contents, addr, start as int, len),
{
    law_block_brings_the_registers(contents, log, addr, start, len, Seq::empty());
    let bytes = ene::block_run(register_bus(contents), log, addr, start, len, Seq::empty()).1.0;
    let want = bytes_from(contents, addr, start as int, len);
    let have = ene::zero_filled(bytes, len);
    assert forall|k: int| 0 <= k < len implies have[k] == want[k] by {
        if k < bytes.len() {
            assert forall|j: int| 0 <= j <= k implies (#[trigger] contents(
                addr,
                (start + j) as u16,
            )) is Some by {
                assert(contents(addr, ((start + j) % 0x1_0000) as u16) == Some(bytes[j]));
            }
            assert(contents(addr, ((start + k) % 0x1_0000) as u16) == Some(bytes[k]));
        } else {
            let n = bytes.len() as int;
            assert(contents(addr, (start + n) as u16) is None);
        }
    }
    assert(have =~= want);
}

/// The register at a place of a dump: the low area first, then the control registers.
pub open spec fn register_of(place: int) -> u16 {
    if place < 0x2000 {
        place as u16
    } else {
        (0x8020 + (place - 0x2000)) as u16
    }
}

proof fn lemma_dump(
    contents: Contents,
    log: Seq<SmbusXfer>,
    addr: u8,
    got: Seq<(u16, Option<u8>)>,
)
    requires
        got.len() <= 0x21E0,
    ensures
        ({
            let dump = diag::dump_run(register_bus(contents), log, addr, got).1;
            &&& dump.len() == 0x21E0
            &&& dump.take(got.len() as int) == got
            &&& forall|i: int|
                got.len() <= i < dump.len() ==> #[trigger] dump[i] == (
                    register_of(i),
                    contents(addr, register_of(i)),
                )
        }),
    decreases 0x21E0 - got.len(),
{
    assert(got.take(got.len() as int) =~= got);
    if got.len() < 0x21E0 {
        let bus = register_bus(contents);
        let reg = diag::dump_reg(got.len());
        assert(reg == register_of(got.len() as int));
        law_read_brings_the_register(contents, log, addr, reg);
        let (sent, reply) = ene::read_run(bus, log, addr, reg);
        let more = got.push((reg, diag::byte_of(reply)));
        lemma_dump(contents, sent, addr, more);
        let dump = diag::dump_run(bus, sent, addr, more).1;
        assert(dump.take(got.len() as int) =~= dump.take(more.len() as int).take(got.len() as int));
        assert(dump[got.len() as int] == dump.take(more.len() as int)[got.len() as int]);
    }
}

/// The entry says what the registers of the controller at the address hold: sixteen bytes of
/// name from 0x1000, the first color from 0x8010 and from 0x8160, and every register below
/// 0x2000 and from 0x8020 up to 0x8200 in the dump, in order. A register that cannot be read is
/// missing in the dump and does not stop the others; in the name and the colors it and what
/// follows it is zero.
pub open spec fn says_what_is_held(e: DiagEntryView, contents: Contents, addr: u8) -> bool {
    &&& e.addr == addr
    &&& e.name == bytes_from(contents, addr, 0x1000, 16)
    &&& e.v1_first == bytes_from(contents, addr, 0x8010, 3)
    &&& e.v2_first == bytes_from(contents, addr, 0x8160, 3)
    &&& e.dump.len() == 0x21E0
    &&& forall|i: int|
        0 <= i < e.dump.len() ==> #[trigger] e.dump[i] == (
            register_of(i),
            contents(addr, register_of(i)),
        )
}

proof fn lemma_entry(contents: Contents, log: Seq<SmbusXfer>, addr: u8)
    ensures
        says_what_is_held(
            diag::entry_run(register_bus(contents), log, addr).1,
            contents,
            addr,
        ),
{
    let bus = register_bus(contents);
    reveal_with_fuel(diag::blocks_run, 4);
    let none = Seq::<Seq<u8>>::empty();
    let (l1, (b1, f1)) = ene::block_run(bus, log, addr, 0x1000, 16, Seq::empty());
    lemma_block_bytes(contents, log, addr, 0x1000, 16);
    let one = none.push(ene::zero_filled(b1, 16));
    assert(diag::blocks_run(bus, log, addr, none) == diag::blocks_run(bus, l1, addr, one));
    let (l2, (b2, f2)) = ene::block_run(bus, l1, addr, 0x8010, 3, Seq::empty());
    lemma_block_bytes(contents, l1, addr, 0x8010, 3);
    let two = one.push(ene::zero_filled(b2, 3));
    assert(diag::blocks_run(bus, l1, addr, one) == diag::blocks_run(bus, l2, addr, two));
    let (l3, (b3, f3)) = ene::block_run(bus, l2, addr, 0x8160, 3, Seq::empty());
    lemma_block_bytes(contents, l2, addr, 0x8160, 3);
    let three = two.push(ene::zero_filled(b3, 3));
    assert(diag::blocks_run(bus, l2, addr, two) == diag::blocks_run(bus, l3, addr, three));
    assert(diag::blocks_run(bus, l3, addr, three) == (l3, three));
    lemma_dump(contents, l3, addr, Seq::empty());
}

/// A reading of controllers brings one entry for each, in the order of the addresses, and each
/// says what the registers of its controller hold.
pub proof fn law_reading_says_what_is_held(
    contents: Contents,
    log: Seq<SmbusXfer>,
    addrs: Seq<u8>,
    got: Seq<DiagEntryView>,
)
    requires
        got.len() <= addrs.len(),
        forall|k: int|
            0 <= k < got.len() ==> says_what_is_held(#[trigger] got[k], contents, addrs[k]),
    ensures
        ({
            let entries = diag::diag_run(register_bus(contents), log, addrs, got).1;
            &&& entries.len() == addrs.len()
            &&& forall|k: int|
                0 <= k < entries.len() ==> says_what_is_held(
                    #[trigger] entries[k],
                    contents,
                    addrs[k],
                )
        }),
    decreases addrs.len() - got.len(),
{
    if got.len() < addrs.len() {
        let addr = addrs[got.len() as int];
        let (sent, entry) = diag::entry_run(register_bus(contents), log, addr);
        lemma_entry(contents, log, addr);
        law_reading_says_what_is_held(contents, sent, addrs, got.push(entry));
    }
}

} // verus!
