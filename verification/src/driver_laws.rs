//! What transactions look like to the SMBus driver, and what its replies and statuses mean.

use crate::backends::ene;
use crate::backends::remap;
use crate::backends::remap_laws;
use crate::pawnio::{self, IoctlView, SmbusXfer};
use crate::text;
use crate::wire;
use vstd::prelude::*;

verus! {

proof fn lemma_zeros(bytes: Seq<u8>)
    requires
        forall|i: int| 0 <= i < bytes.len() ==> #[trigger] bytes[i] == 0,
    ensures
        wire::le_value(bytes) == 0,
    decreases bytes.len(),
{
    if bytes.len() > 0 {
        lemma_zeros(bytes.skip(1));
    }
}

/// The four words of a block whose first bytes are the given ones and whose rest is zero.
proof fn lemma_block_words(front: Seq<u8>)
    requires
        front.len() <= 2,
    ensures
        ({
            let data = pawnio::data_block(front);
            &&& wire::le_value(data.subrange(0, 8)) == if front.len() == 0 {
                0
            } else if front.len() == 1 {
                front[0] as int
            } else {
                front[0] + 256 * front[1]
            }
            &&& wire::le_value(data.subrange(8, 16)) == 0
            &&& wire::le_value(data.subrange(16, 24)) == 0
            &&& wire::le_value(data.subrange(24, 32)) == 0
        }),
{
    let data = pawnio::data_block(front);
    let word = data.subrange(0, 8);
    reveal_with_fuel(wire::le_value, 3);
    let one = word.skip(1);
    let two = one.skip(1);
    lemma_zeros(two);
    assert(one[0] == word[1]);
    lemma_zeros(data.subrange(8, 16));
    lemma_zeros(data.subrange(16, 24));
    lemma_zeros(data.subrange(24, 32));
}

/// A transaction is one call with nine words: the address, one for a read and zero for a write,
/// the command, two for a byte and three for a word, the value in the word behind that, and
/// zeros. There is room for five words of reply.
pub proof fn law_transactions_as_words(x: SmbusXfer)
    ensures
        pawnio::request_of(x) == (IoctlView {
            name: "ioctl_smbus_xfer"@,
            input: match x {
                SmbusXfer::WriteByte { addr, command, value } => seq![
                    addr as u64,
                    0u64,
                    command as u64,
                    2u64,
                    value as u64,
                    0u64,
                    0u64,
                    0u64,
                    0u64,
                ],
                SmbusXfer::WriteWord { addr, command, word } => seq![
                    addr as u64,
                    0u64,
                    command as u64,
                    3u64,
                    word as u64,
                    0u64,
                    0u64,
                    0u64,
                    0u64,
                ],
                SmbusXfer::ReadByte { addr, command } => seq![
                    addr as u64,
                    1u64,
                    command as u64,
                    2u64,
                    0u64,
                    0u64,
                    0u64,
                    0u64,
                    0u64,
                ],
            },
            output_len: 5,
        }),
{
    match x {
        SmbusXfer::WriteByte { value, .. } => lemma_block_words(seq![value]),
        SmbusXfer::WriteWord { word, .. } => {
            reveal_with_fuel(wire::le_bytes, 3);
            lemma_block_words(wire::le_bytes(word as nat, 2));
        },
        SmbusXfer::ReadByte { .. } => lemma_block_words(Seq::empty()),
    }
}

/// A call that does not return zero has failed with what it returned. Else a read brings the low
/// byte of the second word, and a write brings nothing.
pub proof fn law_replies(x: SmbusXfer, hr: i32, output: Seq<u64>)
    requires
        output.len() == 5,
    ensures
        hr != 0 ==> pawnio::reply_of(x, hr, output) == Err::<u8, i32>(hr),
        hr == 0 ==> pawnio::reply_of(x, hr, output) == Ok::<u8, i32>(
            match x {
                SmbusXfer::ReadByte { .. } => (output[1] % 256) as u8,
                _ => 0u8,
            },
        ),
{
}

/// A status is shown as the eight digits of its 32 bits, in capitals, behind the name of the
/// call; only the status for a denied access has a hint behind it.
pub proof fn law_failed_calls_are_described(hr: i32, what: Seq<char>)
    ensures
        ({
            let bits = if hr >= 0 {
                hr as int
            } else {
                hr + 0x1_0000_0000
            };
            pawnio::failure_text(hr, what) == what + " failed: HRESULT = 0x"@ + text::hex_text(
                bits as nat,
                8,
                true,
            ) + if bits == 0x8007_0005 {
                " (E_ACCESSDENIED — run from an elevated/Administrator shell)"@
            } else {
                Seq::empty()
            }
        }),
{
}

// ---------------------------------------------------------------------------
// Failures
// ---------------------------------------------------------------------------

/// A block that ends early ends with the transaction that failed, and has its status.
pub proof fn law_block_fails_with_its_last_transaction(
    bus: ene::Bus,
    log: Seq<SmbusXfer>,
    addr: u8,
    start: nat,
    len: nat,
    got: Seq<u8>,
)
    ensures
        ({
            let (sent, (bytes, failed)) = ene::block_run(bus, log, addr, start, len, got);
            &&& failed matches Some(status) ==> bus(sent) == Err::<u8, i32>(status) && bytes.len()
                < len
            &&& failed is None ==> bytes.len() >= len
        }),
    decreases len - got.len(),
{
    if got.len() < len {
        let (sent, reply) = ene::read_run(bus, log, addr, ene::block_reg(start, got.len()));
        if let Ok(value) = reply {
            law_block_fails_with_its_last_transaction(
                bus,
                sent,
                addr,
                start,
                len,
                got.push(value),
            );
        }
    }
}

/// Every byte that was stored so far was taken.
pub open spec fn stores_taken(bus: ene::Bus, log: Seq<SmbusXfer>) -> bool {
    forall|i: int|
        0 <= i < log.len() && #[trigger] log[i] is WriteByte ==> bus(log.take(i + 1)) is Ok
}

proof fn lemma_taken_push(bus: ene::Bus, log: Seq<SmbusXfer>, x: SmbusXfer)
    requires
        stores_taken(bus, log),
        x is WriteByte ==> bus(log.push(x)) is Ok,
    ensures
        stores_taken(bus, log.push(x)),
{
    let long = log.push(x);
    assert forall|i: int| 0 <= i < long.len() && #[trigger] long[i] is WriteByte implies bus(
        long.take(i + 1),
    ) is Ok by {
        if i < log.len() {
            assert(long[i] == log[i]);
            assert(long.take(i + 1) =~= log.take(i + 1));
        } else {
            assert(long.take(i + 1) =~= long);
        }
    }
}

proof fn lemma_taken_search(bus: ene::Bus, log: Seq<SmbusXfer>, next: nat)
    requires
        stores_taken(bus, log),
    ensures
        stores_taken(bus, remap::free_target_run(bus, log, next).0),
    decreases remap::POOL_LEN - next,
{
    if next < remap::POOL_LEN {
        let x = ene::ask(remap::pool()[next as int]);
        lemma_taken_push(bus, log, x);
        lemma_taken_search(bus, log.push(x), next + 1);
    }
}

proof fn lemma_taken_remap(bus: ene::Bus, log: Seq<SmbusXfer>, slot: nat, next: nat)
    requires
        stores_taken(bus, log),
    ensures
        ({
            let (sent, done) = remap::remap_run(bus, log, slot, next);
            &&& done is Ok ==> stores_taken(bus, sent)
            &&& done matches Err(status) ==> failed_write(bus, sent, status)
        }),
    decreases remap::ENE_MAX_DIMM_SLOTS - slot,
{
    let def = remap::ENE_DEFAULT_ADDR;
    if slot < remap::ENE_MAX_DIMM_SLOTS {
        let asked = log.push(ene::ask(def));
        lemma_taken_push(bus, log, ene::ask(def));
        if bus(asked) is Ok {
            lemma_taken_search(bus, asked, next);
            let (searched, (next2, target)) = remap::free_target_run(bus, asked, next);
            if let Some(t) = target {
                let l1 = searched.push(ene::latch(def, remap::ENE_REG_SLOT_INDEX));
                lemma_taken_push(bus, searched, ene::latch(def, remap::ENE_REG_SLOT_INDEX));
                if bus(l1) is Ok {
                    let x2 = ene::store(def, slot as u8);
                    let l2 = l1.push(x2);
                    if bus(l2) is Ok {
                        lemma_taken_push(bus, l1, x2);
                        let x3 = ene::latch(def, remap::ENE_REG_I2C_ADDRESS);
                        let l3 = l2.push(x3);
                        lemma_taken_push(bus, l2, x3);
                        if bus(l3) is Ok {
                            let x4 = ene::store(def, remap::eight_bit(t));
                            let l4 = l3.push(x4);
                            if bus(l4) is Ok {
                                lemma_taken_push(bus, l3, x4);
                                lemma_taken_remap(bus, l4, slot + 1, next2);
                            }
                        }
                    }
                }
            }
        }
    }
}

/// The last of what was sent is a write to the address 0x77 that failed with the status.
pub open spec fn failed_write(bus: ene::Bus, sent: Seq<SmbusXfer>, status: i32) -> bool {
    &&& sent.len() > 0
    &&& sent.last() matches SmbusXfer::WriteByte { addr, .. } ==> addr == 0x77
    &&& sent.last() matches SmbusXfer::WriteWord { addr, .. } ==> addr == 0x77
    &&& !(sent.last() is ReadByte)
    &&& bus(sent) == Err::<u8, i32>(status)
}

proof fn lemma_taken_quietly(bus: ene::Bus, short: Seq<SmbusXfer>, long: Seq<SmbusXfer>)
    requires
        stores_taken(bus, short),
        remap_laws::extends_quietly(short, long),
    ensures
        stores_taken(bus, long),
{
    assert forall|i: int| 0 <= i < long.len() && #[trigger] long[i] is WriteByte implies bus(
        long.take(i + 1),
    ) is Ok by {
        assert(i < short.len());
        assert(long.take(short.len() as int)[i] == long[i]);
        assert(long.take(i + 1) =~= short.take(i + 1));
    }
}

/// Remap and detection fail only with a write to the address at which modules wait, which is then
/// the last thing sent, and with its status. Where they do not fail, every byte that was stored
/// was taken.
pub proof fn law_remap_fails_with_a_failed_write(bus: ene::Bus)
    ensures
        ({
            let (sent, found) = remap::remap_and_detect_run(bus);
            &&& found matches Err(status) ==> failed_write(bus, sent, status)
            &&& found is Ok ==> stores_taken(bus, sent)
        }),
{
    let start = Seq::<SmbusXfer>::empty();
    lemma_taken_remap(bus, start, 0, 0);
    let (sent, done) = remap::remap_run(bus, start, 0, 0);
    if done is Ok {
        remap_laws::law_detection_stores_nothing(bus, sent, 0, Seq::empty());
        lemma_taken_quietly(bus, sent, remap::remap_and_detect_run(bus).0);
    }
}

// ---------------------------------------------------------------------------
// Registers
// ---------------------------------------------------------------------------

/// To reach a register, its number is latched with a word of command 0x00, the high byte first;
/// only where that is taken, command 0x01 stores a byte or command 0x81 fetches one. The status
/// of what was sent last is the result.
pub proof fn law_latch_comes_first(
    bus: ene::Bus,
    log: Seq<SmbusXfer>,
    addr: u8,
    reg: u16,
    value: u8,
)
    ensures
        ({
            let word = ((reg % 256) * 256 + reg / 256) as u16;
            let latched = log.push(SmbusXfer::WriteWord { addr, command: 0x00, word });
            let taken = bus(latched) is Ok;
            let (stored, stored_reply) = ene::write_run(bus, log, addr, reg, value);
            let (fetched, fetched_reply) = ene::read_run(bus, log, addr, reg);
            &&& stored == if taken {
                latched.push(SmbusXfer::WriteByte { addr, command: 0x01, value })
            } else {
                latched
            }
            &&& stored_reply == bus(stored)
            &&& fetched == if taken {
                latched.push(SmbusXfer::ReadByte { addr, command: 0x81 })
            } else {
                latched
            }
            &&& fetched_reply == bus(fetched)
        }),
{
}

/// An address is asked with a plain read of command 0x00; it is in use exactly if that is
/// answered.
pub proof fn law_answer_means_present(bus: ene::Bus, log: Seq<SmbusXfer>, addr: u8)
    ensures
        ({
            let asked = log.push(SmbusXfer::ReadByte { addr, command: 0x00 });
            ene::probe_run(bus, log, addr) == (asked, bus(asked) is Ok)
        }),
{
}

} // verus!
