//! NVAPI: the calls that the GPU backend needs, as plain values.
//!
//! This module fills in the structures of the calls and reads their status codes; it does not
//! call the driver.

use crate::text;
use vstd::prelude::*;

verus! {

pub const FN_INITIALIZE: u32 = 0x0150_E828;

pub const FN_UNLOAD: u32 = 0xD22B_DD7E;

pub const FN_ENUM_PHYSICAL_GPUS: u32 = 0xE5AC_921F;

pub const FN_GPU_GET_PCI_IDENTIFIERS: u32 = 0x2DDF_B66E;

pub const FN_I2C_WRITE_EX: u32 = 0x283A_C65A;

/// The functions that are looked up.
#[derive(Debug, Clone, Copy, PartialEq, Eq, Structural)]
pub enum NvFunction {
    Initialize,
    Unload,
    EnumPhysicalGpus,
    GpuGetPciIdentifiers,
    I2cWriteEx,
}

/// The number by which a function is looked up.
pub open spec fn function_id(f: NvFunction) -> u32 {
    match f {
        NvFunction::Initialize => FN_INITIALIZE,
        NvFunction::Unload => FN_UNLOAD,
        NvFunction::EnumPhysicalGpus => FN_ENUM_PHYSICAL_GPUS,
        NvFunction::GpuGetPciIdentifiers => FN_GPU_GET_PCI_IDENTIFIERS,
        NvFunction::I2cWriteEx => FN_I2C_WRITE_EX,
    }
}

/// What a function is called in messages.
pub open spec fn function_name(f: NvFunction) -> Seq<char> {
    match f {
        NvFunction::Initialize => "NvAPI_Initialize"@,
        NvFunction::Unload => "NvAPI_Unload"@,
        NvFunction::EnumPhysicalGpus => "NvAPI_EnumPhysicalGPUs"@,
        NvFunction::GpuGetPciIdentifiers => "NvAPI_GPU_GetPCIIdentifiers"@,
        NvFunction::I2cWriteEx => "NvAPI_I2CWriteEx"@,
    }
}

impl NvFunction {
    /// The number by which the function is looked up.
    pub fn id(self) -> (id: u32)
        ensures
            id == function_id(self),
    {
        match self {
            NvFunction::Initialize => FN_INITIALIZE,
            NvFunction::Unload => FN_UNLOAD,
            NvFunction::EnumPhysicalGpus => FN_ENUM_PHYSICAL_GPUS,
            NvFunction::GpuGetPciIdentifiers => FN_GPU_GET_PCI_IDENTIFIERS,
            NvFunction::I2cWriteEx => FN_I2C_WRITE_EX,
        }
    }

    /// What the function is called in messages.
    pub fn name(self) -> (name: &'static str)
        ensures
            name@ == function_name(self),
    {
        match self {
            NvFunction::Initialize => "NvAPI_Initialize",
            NvFunction::Unload => "NvAPI_Unload",
            NvFunction::EnumPhysicalGpus => "NvAPI_EnumPhysicalGPUs",
            NvFunction::GpuGetPciIdentifiers => "NvAPI_GPU_GetPCIIdentifiers",
            NvFunction::I2cWriteEx => "NvAPI_I2CWriteEx",
        }
    }

    /// What is said of a driver that lacks the function.
    pub fn missing(self) -> (message: String)
        ensures
            message@ == "nvapi_QueryInterface returned null for "@ + function_name(self)
                + " (id 0x"@ + text::hex_text(function_id(self) as nat, 8, false) + ")"@,
    {
        let mut message = "nvapi_QueryInterface returned null for ".to_owned();
        message.append(self.name());
        message.append(" (id 0x");
        text::push_hex(&mut message, self.id(), 8, false);
        message.append(")");
        message
    }
}

/// The most GPUs that an enumeration returns.
pub const MAX_PHYSICAL_GPUS: usize = 64;

/// How many of the handles that an enumeration has filled in are valid, given the count that it
/// returned.
pub fn valid_gpus(count: u32) -> (n: usize)
    ensures
        n == if count < MAX_PHYSICAL_GPUS {
            count as int
        } else {
            MAX_PHYSICAL_GPUS as int
        },
        count <= 64 ==> n == count,
        count > 64 ==> n == 64,
{
    if (count as usize) < MAX_PHYSICAL_GPUS {
        count as usize
    } else {
        MAX_PHYSICAL_GPUS
    }
}

/// The speed of an I2C bus.
#[derive(Debug, Clone, Copy, PartialEq, Eq, Structural)]
pub enum I2cSpeed {
    Default,
    Khz3,
    Khz10,
    Khz33,
    Khz100,
    Khz200,
    Khz400,
}

/// The number that stands for a speed.
pub open spec fn speed_code(speed: I2cSpeed) -> u32 {
    match speed {
        I2cSpeed::Default => 0,
        I2cSpeed::Khz3 => 1,
        I2cSpeed::Khz10 => 2,
        I2cSpeed::Khz33 => 3,
        I2cSpeed::Khz100 => 4,
        I2cSpeed::Khz200 => 5,
        I2cSpeed::Khz400 => 6,
    }
}

impl I2cSpeed {
    /// The number that stands for the speed.
    pub fn code(self) -> (c: u32)
        ensures
            c == speed_code(self),
    {
        match self {
            I2cSpeed::Default => 0,
            I2cSpeed::Khz3 => 1,
            I2cSpeed::Khz10 => 2,
            I2cSpeed::Khz33 => 3,
            I2cSpeed::Khz100 => 4,
            I2cSpeed::Khz200 => 5,
            I2cSpeed::Khz400 => 6,
        }
    }
}

/// The PCI identifiers of a GPU. `device_id` and `subsystem_id` hold the device in the high
/// half and the vendor in the low half.
#[derive(Debug, Clone, Copy, PartialEq, Eq, Structural)]
pub struct PciIdentifiers {
    pub device_id: u32,
    pub subsystem_id: u32,
    pub revision_id: u32,
    pub ext_device_id: u32,
}

/// The arguments of an I2C write. A register address of `None` stands for a null pointer.
#[derive(Debug)]
pub struct NvI2cInfoV3 {
    pub version: u32,
    pub display_mask: u32,
    pub is_ddc_port: u8,
    pub i2c_dev_address: u8,
    pub i2c_reg_address: Option<Vec<u8>>,
    pub reg_addr_size: u32,
    pub data: Vec<u8>,
    pub size: u32,
    pub i2c_speed: u32,
    pub i2c_speed_khz: u32,
    pub port_id: u8,
    pub is_port_id_set: u32,
}

/// The version field: the third version of the structure, and its size in memory.
pub open spec fn version_field(struct_size: nat) -> nat {
    0x3_0000 + struct_size
}

impl NvI2cInfoV3 {
    /// The arguments for writing `data` to a 7-bit device address on a port, in a structure
    /// that takes up `struct_size` bytes of memory.
    pub fn for_write(dev_addr_7bit: u8, data: &[u8], port_id: u8, struct_size: u16) -> (info: Self)
        ensures
            info.version as nat == version_field(struct_size as nat),
            info.display_mask == 0,
            info.is_ddc_port == 0,
            info.i2c_dev_address as nat == (dev_addr_7bit as nat * 2) % 256,
            info.i2c_reg_address is None,
            info.reg_addr_size == 0,
            info.data@ == data@,
            info.size as nat == data@.len() % 0x1_0000_0000,
            info.i2c_speed == 0xFFFF,
            info.i2c_speed_khz == speed_code(I2cSpeed::Khz100),
            info.port_id == port_id,
            info.is_port_id_set == 1,
    {
        let mut bytes: Vec<u8> = Vec::new();
        let mut i: usize = 0;
        while i < data.len()
            invariant
                i <= data@.len(),
                bytes@ == data@.take(i as int),
            decreases data@.len() - i,
        {
            bytes.push(data[i]);
            i += 1;
            assert(bytes@ =~= data@.take(i as int));
        }
        assert(bytes@ =~= data@);
        NvI2cInfoV3 {
            version: 0x3_0000 + struct_size as u32,
            display_mask: 0,
            is_ddc_port: 0,
            i2c_dev_address: ((dev_addr_7bit as u16 * 2) % 256) as u8,
            i2c_reg_address: None,
            reg_addr_size: 0,
            data: bytes,
            size: (data.len() as u64 % 0x1_0000_0000) as u32,
            i2c_speed: 0xFFFF,
            i2c_speed_khz: I2cSpeed::Khz100.code(),
            port_id,
            is_port_id_set: 1,
        }
    }
}

/// What is said of a call that failed.
pub open spec fn call_failed_text(what: Seq<char>, status: i32) -> Seq<char> {
    what + " failed: "@ + text::signed_text(status as int)
}

/// Tells success from failure, and describes a failure.
pub fn check_status(status: i32, what: &str) -> (r: Result<(), String>)
    ensures
        r is Ok <==> status == 0,
        r matches Err(message) ==> message@ == call_failed_text(what@, status),
{
    if status == 0 {
        return Ok(());
    }
    let mut message = what.to_owned();
    message.append(" failed: ");
    text::push_signed(&mut message, status);
    Err(message)
}

/// What an I2C write is called in messages.
pub open spec fn i2c_write_text(dev_addr_7bit: u8, port_id: u8) -> Seq<char> {
    "NvAPI_I2CWriteEx(addr=0x"@ + text::hex_text(dev_addr_7bit as nat, 2, false) + ", port="@
        + text::decimal_text(port_id as nat) + ")"@
}

/// What an I2C write is called in messages.
pub fn i2c_write_label(dev_addr_7bit: u8, port_id: u8) -> (label: String)
    ensures
        label@ == i2c_write_text(dev_addr_7bit, port_id),
{
    let mut label = "NvAPI_I2CWriteEx(addr=0x".to_owned();
    text::push_hex(&mut label, dev_addr_7bit as u32, 2, false);
    label.append(", port=");
    text::push_decimal(&mut label, port_id as u64);
    label.append(")");
    label
}

} // verus!
