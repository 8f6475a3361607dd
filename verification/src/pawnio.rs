//! The PawnIO driver's IOCTL interface and the SMBus transactions that go through it.
//!
//! Each request is a named call with a row of 64-bit words in and a row of 64-bit words out.
//! This module frames the requests and reads the replies; it does not talk to the driver.

use crate::text;
use crate::wire;
use vstd::prelude::*;

verus! {

/// The status that stands for success.
pub const S_OK: i32 = 0;

/// The transaction size code for one byte at a register.
pub const I2C_SMBUS_BYTE_DATA: u8 = 2;

/// The transaction size code for one 16-bit value at a register.
pub const I2C_SMBUS_WORD_DATA: u8 = 3;

/// The direction code of a read.
pub const I2C_SMBUS_READ: u8 = 1;

/// The direction code of a write.
pub const I2C_SMBUS_WRITE: u8 = 0;

/// How the driver waits between SMBus transactions.
#[derive(Debug, Clone, Copy, PartialEq, Eq, Structural)]
pub enum SleepMode {
    AlwaysBusy,
    ShortBusy,
    AlwaysSleep,
}

/// The number that stands for a sleep mode in a request.
pub open spec fn sleep_code(mode: SleepMode) -> u64 {
    match mode {
        SleepMode::AlwaysBusy => 0,
        SleepMode::ShortBusy => 1,
        SleepMode::AlwaysSleep => 2,
    }
}

impl SleepMode {
    /// The number that stands for the mode in a request.
    pub fn code(self) -> (c: u64)
        ensures
            c == sleep_code(self),
    {
        match self {
            SleepMode::AlwaysBusy => 0,
            SleepMode::ShortBusy => 1,
            SleepMode::AlwaysSleep => 2,
        }
    }
}

// ---------------------------------------------------------------------------
// The library
// ---------------------------------------------------------------------------

/// The number of places in which the library is looked for.
pub const CANDIDATES: usize = 3;

/// The places in which the library is looked for. The installer puts it on the search path,
/// but a shell that is older than the installation does not know that yet.
pub open spec fn candidate(n: int) -> Seq<char> {
    if n == 0 {
        "PawnIOLib.dll"@
    } else if n == 1 {
        "C:\\Program Files\\PawnIO\\PawnIOLib.dll"@
    } else {
        "C:\\Program Files (x86)\\PawnIO\\PawnIOLib.dll"@
    }
}

/// What to do next about the library.
#[derive(Debug)]
pub enum LoadStep {
    /// Try to load it from here.
    Try(&'static str),
    /// It is in none of the places; what is said of it.
    GiveUp(String),
}

/// What to do after the attempts that failed so far: each place is tried in order, and the
/// failure at the last one is what is reported.
pub fn next_candidate(failures: &Vec<String>) -> (step: LoadStep)
    requires
        failures@.len() <= CANDIDATES,
    ensures
        step is Try <==> failures@.len() < CANDIDATES,
        step matches LoadStep::Try(path) ==> path@ == candidate(failures@.len() as int),
        step matches LoadStep::GiveUp(message) ==> message@
            == "load PawnIOLib.dll (is PawnIO installed? https://pawnio.eu): "@
            + failures@.last()@,
{
    let n: usize = failures.len();
    if n == 0 {
        return LoadStep::Try("PawnIOLib.dll");
    }
    if n == 1 {
        return LoadStep::Try("C:\\Program Files\\PawnIO\\PawnIOLib.dll");
    }
    if n == 2 {
        return LoadStep::Try("C:\\Program Files (x86)\\PawnIO\\PawnIOLib.dll");
    }
    let mut message = "load PawnIOLib.dll (is PawnIO installed? https://pawnio.eu): ".to_owned();
    message.append(failures[n - 1].as_str());
    LoadStep::GiveUp(message)
}

/// What is said of a library that lacks an export.
pub fn missing_export(name: &str) -> (message: String)
    ensures
        message@ == "PawnIOLib.dll missing export `"@ + name@ + "`"@,
{
    let mut message = "PawnIOLib.dll missing export `".to_owned();
    message.append(name);
    message.append("`");
    message
}

/// A request to a loaded driver module: the call's name, the words handed in, and how many
/// words of room there are for the reply.
#[derive(Debug, Clone)]
pub struct Ioctl {
    pub name: &'static str,
    pub input: Vec<u64>,
    pub output_len: usize,
}

/// What an `Ioctl` says, as mathematical values.
pub struct IoctlView {
    pub name: Seq<char>,
    pub input: Seq<u64>,
    pub output_len: nat,
}

impl View for Ioctl {
    type V = IoctlView;

    open spec fn view(&self) -> IoctlView {
        IoctlView { name: self.name@, input: self.input@, output_len: self.output_len as nat }
    }
}

// ---------------------------------------------------------------------------
// Status codes
// ---------------------------------------------------------------------------

/// A status as an unsigned 32-bit number.
pub open spec fn status_bits(hr: i32) -> nat {
    if hr < 0 {
        (hr + 0x1_0000_0000) as nat
    } else {
        hr as nat
    }
}

/// What is said of a failed call.
pub open spec fn failure_text(hr: i32, what: Seq<char>) -> Seq<char> {
    let hint = if status_bits(hr) == 0x8007_0005 {
        " (E_ACCESSDENIED — run from an elevated/Administrator shell)"@
    } else {
        Seq::empty()
    };
    what + " failed: HRESULT = 0x"@ + text::hex_text(status_bits(hr), 8, true) + hint
}

/// Tells success from failure, and describes a failure.
pub fn check(hr: i32, what: &str) -> (r: Result<(), String>)
    ensures
        r is Ok <==> hr == S_OK,
        r matches Err(e) ==> e@ == failure_text(hr, what@),
{
    if hr == S_OK {
        return Ok(());
    }
    let bits: u32 = if hr < 0 {
        (hr as i64 + 0x1_0000_0000) as u32
    } else {
        hr as u32
    };
    let mut message = what.to_owned();
    message.append(" failed: HRESULT = 0x");
    text::push_hex(&mut message, bits, 8, true);
    if bits == 0x8007_0005 {
        message.append(" (E_ACCESSDENIED — run from an elevated/Administrator shell)");
    }
    assert(message@ =~= failure_text(hr, what@));
    Err(message)
}

// ---------------------------------------------------------------------------
// Requests
// ---------------------------------------------------------------------------

/// The words of an SMBus transaction: address, direction, command, size code, the 32 data
/// bytes as four little-endian words, and one word that stays zero.
pub open spec fn xfer_words(
    addr: u8,
    read_write: u8,
    command: u8,
    size_code: u8,
    data: Seq<u8>,
) -> Seq<u64> {
    seq![
        addr as u64,
        read_write as u64,
        command as u64,
        size_code as u64,
        wire::le_value(data.subrange(0, 8)) as u64,
        wire::le_value(data.subrange(8, 16)) as u64,
        wire::le_value(data.subrange(16, 24)) as u64,
        wire::le_value(data.subrange(24, 32)) as u64,
        0u64,
    ]
}

/// The request for an SMBus transaction.
pub open spec fn xfer_request(
    addr: u8,
    read_write: u8,
    command: u8,
    size_code: u8,
    data: Seq<u8>,
) -> IoctlView {
    IoctlView {
        name: "ioctl_smbus_xfer"@,
        input: xfer_words(addr, read_write, command, size_code, data),
        output_len: 5,
    }
}

/// Data bytes at the front of a block of 32, the rest zero.
pub open spec fn data_block(front: Seq<u8>) -> Seq<u8> {
    Seq::new(32, |i: int| if i < front.len() { front[i] } else { 0u8 })
}

/// The first four words of a reply as bytes, little-endian.
pub open spec fn reply_data(output: Seq<u64>) -> Seq<u8> {
    wire::le_bytes(output[0] as nat, 8) + wire::le_bytes(output[1] as nat, 8) + wire::le_bytes(
        output[2] as nat,
        8,
    ) + wire::le_bytes(output[3] as nat, 8)
}

/// A driver module that exposes an SMBus controller: its calls, as requests.
pub struct Module;

impl Module {
    /// Asks the module for its name and the PCI identifiers of the controller.
    pub fn identity() -> (call: Ioctl)
        ensures
            call@ == (IoctlView { name: "ioctl_identity"@, input: seq![0u64], output_len: 3 }),
    {
        let call = Ioctl { name: "ioctl_identity", input: vec![0u64], output_len: 3 };
        assert(call.input@ =~= seq![0u64]);
        call
    }

    /// Sets how the driver waits between transactions.
    pub fn set_sleep_mode(mode: SleepMode) -> (call: Ioctl)
        ensures
            call@ == (IoctlView {
                name: "ioctl_set_sleep_mode"@,
                input: seq![sleep_code(mode)],
                output_len: 0,
            }),
    {
        let call = Ioctl { name: "ioctl_set_sleep_mode", input: vec![mode.code()], output_len: 0 };
        assert(call.input@ =~= seq![sleep_code(mode)]);
        call
    }

    /// Selects an SMBus port. AMD chipsets expose two; DDR5 DIMMs live on port 0.
    pub fn piix4_port_sel(port: u64) -> (call: Ioctl)
        ensures
            call@ == (IoctlView {
                name: "ioctl_piix4_port_sel"@,
                input: seq![port],
                output_len: 1,
            }),
    {
        let call = Ioctl { name: "ioctl_piix4_port_sel", input: vec![port], output_len: 1 };
        assert(call.input@ =~= seq![port]);
        call
    }

    /// An SMBus transaction over 32 data bytes.
    pub fn smbus_xfer(
        addr: u8,
        read_write: u8,
        command: u8,
        size_code: u8,
        data: &[u8; 32],
    ) -> (call: Ioctl)
        ensures
            call@ == xfer_request(addr, read_write, command, size_code, data@),
    {
        let bytes = data.as_slice();
        let mut input: Vec<u64> = Vec::new();
        input.push(addr as u64);
        input.push(read_write as u64);
        input.push(command as u64);
        input.push(size_code as u64);
        input.push(wire::read_word(bytes, 0));
        input.push(wire::read_word(bytes, 8));
        input.push(wire::read_word(bytes, 16));
        input.push(wire::read_word(bytes, 24));
        input.push(0);
        assert(input@ =~= xfer_words(addr, read_write, command, size_code, data@));
        Ioctl { name: "ioctl_smbus_xfer", input, output_len: 5 }
    }

    /// The first four words of the reply to an SMBus transaction as 32 bytes.
    pub fn smbus_data(output: &[u64; 5]) -> (data: Vec<u8>)
        ensures
            data@ == reply_data(output@),
            data@.len() == 32,
    {
        let mut data: Vec<u8> = Vec::new();
        wire::push_word(&mut data, output[0]);
        wire::push_word(&mut data, output[1]);
        wire::push_word(&mut data, output[2]);
        wire::push_word(&mut data, output[3]);
        assert(data@ =~= reply_data(output@));
        proof {
            wire::lemma_le_bytes_len(output@[0] as nat, 8);
            wire::lemma_le_bytes_len(output@[1] as nat, 8);
            wire::lemma_le_bytes_len(output@[2] as nat, 8);
            wire::lemma_le_bytes_len(output@[3] as nat, 8);
        }
        data
    }

    /// SMBus write-byte-data.
    pub fn write_byte_data(addr: u8, command: u8, value: u8) -> (call: Ioctl)
        ensures
            call@ == xfer_request(
                addr,
                I2C_SMBUS_WRITE,
                command,
                I2C_SMBUS_BYTE_DATA,
                data_block(seq![value]),
            ),
    {
        let mut data: [u8; 32] = [0u8; 32];
        data[0] = value;
        assert(data@ =~= data_block(seq![value]));
        Module::smbus_xfer(addr, I2C_SMBUS_WRITE, command, I2C_SMBUS_BYTE_DATA, &data)
    }

    /// SMBus write-word-data (little-endian on the wire).
    pub fn write_word_data(addr: u8, command: u8, value: u16) -> (call: Ioctl)
        ensures
            call@ == xfer_request(
                addr,
                I2C_SMBUS_WRITE,
                command,
                I2C_SMBUS_WORD_DATA,
                data_block(wire::le_bytes(value as nat, 2)),
            ),
    {
        let mut data: [u8; 32] = [0u8; 32];
        data[0] = (value % 256) as u8;
        data[1] = (value / 256) as u8;
        proof {
            reveal_with_fuel(wire::le_bytes, 3);
        }
        assert(data@ =~= data_block(wire::le_bytes(value as nat, 2)));
        Module::smbus_xfer(addr, I2C_SMBUS_WRITE, command, I2C_SMBUS_WORD_DATA, &data)
    }

    /// SMBus read-byte-data.
    pub fn read_byte_data(addr: u8, command: u8) -> (call: Ioctl)
        ensures
            call@ == xfer_request(
                addr,
                I2C_SMBUS_READ,
                command,
                I2C_SMBUS_BYTE_DATA,
                data_block(Seq::empty()),
            ),
    {
        let data: [u8; 32] = [0u8; 32];
        assert(data@ =~= data_block(Seq::empty()));
        Module::smbus_xfer(addr, I2C_SMBUS_READ, command, I2C_SMBUS_BYTE_DATA, &data)
    }
}

// ---------------------------------------------------------------------------
// Transactions
// ---------------------------------------------------------------------------

/// One SMBus transaction with the device at a 7-bit address.
#[derive(Debug, Clone, Copy, PartialEq, Eq, Structural)]
pub enum SmbusXfer {
    WriteByte { addr: u8, command: u8, value: u8 },
    WriteWord { addr: u8, command: u8, word: u16 },
    ReadByte { addr: u8, command: u8 },
}

/// The address that a transaction goes to.
pub open spec fn target_of(x: SmbusXfer) -> u8 {
    match x {
        SmbusXfer::WriteByte { addr, .. } => addr,
        SmbusXfer::WriteWord { addr, .. } => addr,
        SmbusXfer::ReadByte { addr, .. } => addr,
    }
}

/// The request that carries a transaction.
pub open spec fn request_of(x: SmbusXfer) -> IoctlView {
    match x {
        SmbusXfer::WriteByte { addr, command, value } => xfer_request(
            addr,
            I2C_SMBUS_WRITE,
            command,
            I2C_SMBUS_BYTE_DATA,
            data_block(seq![value]),
        ),
        SmbusXfer::WriteWord { addr, command, word } => xfer_request(
            addr,
            I2C_SMBUS_WRITE,
            command,
            I2C_SMBUS_WORD_DATA,
            data_block(wire::le_bytes(word as nat, 2)),
        ),
        SmbusXfer::ReadByte { addr, command } => xfer_request(
            addr,
            I2C_SMBUS_READ,
            command,
            I2C_SMBUS_BYTE_DATA,
            data_block(Seq::empty()),
        ),
    }
}

/// What a transaction came to, given the call's status and the words it returned: error code,
/// byte, low word, high word, length. The status tells success from failure. It is the byte that
/// was read, zero for a write, or the status of the call that failed.
pub open spec fn reply_of(x: SmbusXfer, hr: i32, output: Seq<u64>) -> Result<u8, i32> {
    if hr != S_OK {
        Err(hr)
    } else if x is ReadByte {
        Ok((output[1] % 256) as u8)
    } else {
        Ok(0u8)
    }
}

impl SmbusXfer {
    /// The request that carries the transaction.
    pub fn request(&self) -> (call: Ioctl)
        ensures
            call@ == request_of(*self),
    {
        match *self {
            SmbusXfer::WriteByte { addr, command, value } => Module::write_byte_data(
                addr,
                command,
                value,
            ),
            SmbusXfer::WriteWord { addr, command, word } => Module::write_word_data(
                addr,
                command,
                word,
            ),
            SmbusXfer::ReadByte { addr, command } => Module::read_byte_data(addr, command),
        }
    }

    /// What the transaction came to, given the call's status and the words it returned.
    pub fn reply(&self, hr: i32, output: &[u64; 5]) -> (r: Result<u8, i32>)
        ensures
            r == reply_of(*self, hr, output@),
    {
        if hr != S_OK {
            return Err(hr);
        }
        match *self {
            SmbusXfer::ReadByte { .. } => Ok((output[1] % 256) as u8),
            _ => Ok(0u8),
        }
    }
}

/// The data bytes survive the packing into words: a reply that carries the words of a request
/// gives back the data of that request.
pub proof fn law_data_survives_packing(
    addr: u8,
    read_write: u8,
    command: u8,
    size_code: u8,
    data: Seq<u8>,
)
    requires
        data.len() == 32,
    ensures
        reply_data(xfer_words(addr, read_write, command, size_code, data).subrange(4, 9)) == data,
{
    wire::lemma_eight_bytes();
    let words = xfer_words(addr, read_write, command, size_code, data).subrange(4, 9);
    assert forall|k: int| 0 <= k < 4 implies #[trigger] wire::le_bytes(words[k] as nat, 8)
        == data.subrange(8 * k, 8 * k + 8) by {
        let part = data.subrange(8 * k, 8 * k + 8);
        wire::lemma_le_value_bound(part);
        wire::law_bytes_read_back(part);
        assert(words[k] == wire::le_value(part) as u64);
    }
    assert(wire::le_bytes(words[0] as nat, 8) == data.subrange(0, 8));
    assert(wire::le_bytes(words[1] as nat, 8) == data.subrange(8, 16));
    assert(wire::le_bytes(words[2] as nat, 8) == data.subrange(16, 24));
    assert(wire::le_bytes(words[3] as nat, 8) == data.subrange(24, 32));
    assert(reply_data(words) =~= data);
}

} // verus!
