//! How the drivers are found and set up, what their calls are told by, and what is said where
//! something of that fails.

use crate::backend::{self, Backend, DeviceIdView};
use crate::backends::gigabyte_gpu::{self, GigabyteGpu};
use crate::backends::gigabyte_mobo::{self, GigabyteMobo};
use crate::backends::gskill_ddr5::{self, Attempt, GSkillDdr5, SearchDir};
use crate::nvapi::{self, I2cSpeed, NvFunction};
use crate::pawnio;
use crate::text;
use crate::wire;
use vstd::prelude::*;

verus! {

// ---------------------------------------------------------------------------
// The driver module of the SMBus
// ---------------------------------------------------------------------------

/// How early a place is looked in.
pub open spec fn turn(dir: SearchDir) -> int {
    match dir {
        SearchDir::Configured => 0,
        SearchDir::LocalAppData => 1,
        SearchDir::ExeDir => 2,
        SearchDir::ProgramFiles => 3,
        SearchDir::WorkingDir => 4,
    }
}

/// A place is looked in exactly if it is there, which the installation directory always is, and
/// what the user has named comes before the user's data, then the program, then the
/// installation, then the working directory. No place is looked in twice.
pub proof fn law_places_are_searched_in_turn(
    configured: bool,
    local_app_data: bool,
    exe_dir: bool,
    working_dir: bool,
    dir: SearchDir,
    i: int,
    j: int,
)
    ensures
        ({
            let order = gskill_ddr5::search_order(configured, local_app_data, exe_dir, working_dir);
            &&& order.contains(dir) <==> match dir {
                SearchDir::Configured => configured,
                SearchDir::LocalAppData => local_app_data,
                SearchDir::ExeDir => exe_dir,
                SearchDir::ProgramFiles => true,
                SearchDir::WorkingDir => working_dir,
            }
            &&& 0 <= i < j < order.len() ==> turn(order[i]) < turn(order[j])
        }),
{
    let order = gskill_ddr5::search_order(configured, local_app_data, exe_dir, working_dir);
    let a = gskill_ddr5::if_there(configured, SearchDir::Configured);
    let b = gskill_ddr5::if_there(local_app_data, SearchDir::LocalAppData);
    let c = gskill_ddr5::if_there(exe_dir, SearchDir::ExeDir);
    let d = seq![SearchDir::ProgramFiles];
    let e = gskill_ddr5::if_there(working_dir, SearchDir::WorkingDir);
    let ab = a.len() + b.len();
    let abc = ab + c.len();
    assert(a.len() > 0 ==> order[0] == SearchDir::Configured);
    assert(b.len() > 0 ==> order[a.len() as int] == SearchDir::LocalAppData);
    assert(c.len() > 0 ==> order[ab as int] == SearchDir::ExeDir);
    assert(order[abc as int] == SearchDir::ProgramFiles);
    assert(e.len() > 0 ==> order[abc as int + 1] == SearchDir::WorkingDir);
    assert(order.len() == abc + 1 + e.len());
}

/// The failure of the last attempt that failed is what is reported, with the path of the file; an
/// attempt that found no file says nothing.
pub proof fn law_last_failure_is_reported(tried: Seq<Attempt>, path: String, error: String)
    ensures
        gskill_ddr5::last_failure(Seq::empty()) is None,
        gskill_ddr5::last_failure(tried.push(Attempt::Missing)) == gskill_ddr5::last_failure(tried),
        gskill_ddr5::give_up_text(
            gskill_ddr5::last_failure(tried.push(Attempt::Failed { path, error })),
        ) == "note: gskill-ddr5: SMBus pawn module load failed: "@ + (path@ + " → "@ + error@),
        gskill_ddr5::give_up_text(None)
            == "note: gskill-ddr5: neither SmbusI801.bin nor SmbusPIIX4.bin found (set $LIGHTSHOW_PAWNIO_MODULES_DIR to a directory containing them)"@,
{
    assert(tried.push(Attempt::Missing).drop_last() =~= tried);
}

/// The module for Intel chipsets is tried first and needs no setup. The module for AMD ones is
/// tried next, and is told to sleep between transactions and to use the first port.
pub proof fn law_modules_are_set_up(place: int)
    requires
        0 <= place < 2,
    ensures
        ({
            let kind = gskill_ddr5::kind_at(place);
            let calls = gskill_ddr5::setup_requests(kind);
            if place == 0 {
                &&& gskill_ddr5::filename_of(kind) == "SmbusI801.bin"@
                &&& gskill_ddr5::kind_text(kind) == "IntelI801"@
                &&& calls.len() == 0
            } else {
                &&& gskill_ddr5::filename_of(kind) == "SmbusPIIX4.bin"@
                &&& gskill_ddr5::kind_text(kind) == "AmdPiix4"@
                &&& calls.len() == 2
                &&& calls[0].name == "ioctl_set_sleep_mode"@
                &&& calls[0].input == seq![2u64]
                &&& calls[0].output_len == 0
                &&& calls[1].name == "ioctl_piix4_port_sel"@
                &&& calls[1].input == seq![0u64]
                &&& calls[1].output_len == 1
            }
        }),
{
}

/// The library is looked for on the search path, then where it is installed, and is called the
/// same in all places.
pub proof fn law_library_is_looked_for(n: int)
    requires
        0 <= n < 3,
    ensures
        pawnio::CANDIDATES == 3,
        pawnio::candidate(n) == if n == 0 {
            ""@ + "PawnIOLib.dll"@
        } else if n == 1 {
            "C:\\Program Files\\PawnIO\\"@ + "PawnIOLib.dll"@
        } else {
            "C:\\Program Files (x86)\\PawnIO\\"@ + "PawnIOLib.dll"@
        },
{
    reveal_strlit("");
    reveal_strlit("PawnIOLib.dll");
    reveal_strlit("C:\\Program Files\\PawnIO\\");
    reveal_strlit("C:\\Program Files (x86)\\PawnIO\\");
    reveal_strlit("C:\\Program Files\\PawnIO\\PawnIOLib.dll");
    reveal_strlit("C:\\Program Files (x86)\\PawnIO\\PawnIOLib.dll");
}

// ---------------------------------------------------------------------------
// The graphics driver
// ---------------------------------------------------------------------------

/// No two functions are looked up by the same number, and each has the number that the driver
/// knows it by.
pub proof fn law_functions_are_told_apart(f: NvFunction, g: NvFunction)
    ensures
        nvapi::function_id(f) == nvapi::function_id(g) ==> f == g,
        nvapi::function_id(f) == match f {
            NvFunction::Initialize => 0x0150_e828u32,
            NvFunction::Unload => 0xd22b_dd7eu32,
            NvFunction::EnumPhysicalGpus => 0xe5ac_921fu32,
            NvFunction::GpuGetPciIdentifiers => 0x2ddf_b66eu32,
            NvFunction::I2cWriteEx => 0x283a_c65au32,
        },
        nvapi::function_name(f) == "NvAPI_"@ + match f {
            NvFunction::Initialize => "Initialize"@,
            NvFunction::Unload => "Unload"@,
            NvFunction::EnumPhysicalGpus => "EnumPhysicalGPUs"@,
            NvFunction::GpuGetPciIdentifiers => "GPU_GetPCIIdentifiers"@,
            NvFunction::I2cWriteEx => "I2CWriteEx"@,
        },
{
    reveal_strlit("NvAPI_");
    reveal_strlit("Initialize");
    reveal_strlit("Unload");
    reveal_strlit("EnumPhysicalGPUs");
    reveal_strlit("GPU_GetPCIIdentifiers");
    reveal_strlit("I2CWriteEx");
    reveal_strlit("NvAPI_Initialize");
    reveal_strlit("NvAPI_Unload");
    reveal_strlit("NvAPI_EnumPhysicalGPUs");
    reveal_strlit("NvAPI_GPU_GetPCIIdentifiers");
    reveal_strlit("NvAPI_I2CWriteEx");
}

/// How fast a bus is, in thousands of bits per second; zero where the driver chooses.
pub open spec fn khz(speed: I2cSpeed) -> int {
    match speed {
        I2cSpeed::Default => 0,
        I2cSpeed::Khz3 => 3,
        I2cSpeed::Khz10 => 10,
        I2cSpeed::Khz33 => 33,
        I2cSpeed::Khz100 => 100,
        I2cSpeed::Khz200 => 200,
        I2cSpeed::Khz400 => 400,
    }
}

/// The numbers of the speeds begin at zero and are in the order of the speeds; there are no gaps.
pub proof fn law_faster_speeds_have_higher_numbers(a: I2cSpeed, b: I2cSpeed)
    ensures
        khz(a) < khz(b) <==> nvapi::speed_code(a) < nvapi::speed_code(b),
        nvapi::speed_code(I2cSpeed::Default) == 0,
        nvapi::speed_code(a) <= 6,
        nvapi::speed_code(a) == nvapi::speed_code(b) ==> a == b,
        nvapi::speed_code(I2cSpeed::Khz100) == 4,
{
}

/// The version of a structure is in the high half of its field, and its size in the low half.
pub proof fn law_version_and_size_are_told(size: nat)
    requires
        size < 0x1_0000,
    ensures
        nvapi::version_field(size) / 0x1_0000 == 3,
        nvapi::version_field(size) % 0x1_0000 == size,
{
}

/// A write that failed is described by its address in hexadecimal digits, its port in decimal
/// ones, and its status.
pub proof fn law_failed_writes_are_described(addr: u8, port: u8, status: i32)
    ensures
        nvapi::call_failed_text(nvapi::i2c_write_text(addr, port), status)
            == "NvAPI_I2CWriteEx(addr=0x"@ + text::hex_text(addr as nat, 2, false) + ", port="@
            + text::decimal_text(port as nat) + ")"@ + " failed: "@ + text::signed_text(
            status as int,
        ),
{
}

// ---------------------------------------------------------------------------
// Reports
// ---------------------------------------------------------------------------

/// A report that was not taken is named by what it is: the effect of all zones, a piece of a
/// strip, with its header and where it begins, or else by its second byte.
pub proof fn law_reports_are_named(packet: Seq<u8>)
    requires
        packet.len() == 64,
    ensures
        gigabyte_mobo::label_of(packet) == if packet[1] == 0x20 {
            "send effect packet"@
        } else if packet[1] == 0x58 || packet[1] == 0x59 || packet[1] == 0x62 || packet[1]
            == 0x63 {
            "strip write header=0x"@ + text::hex_text(packet[1] as nat, 2, false) + " off="@
                + text::decimal_text((packet[2] + 256 * packet[3]) as nat)
        } else {
            "send_feature_report op=0x"@ + text::hex_text(packet[1] as nat, 2, false)
        },
{
    let headers = gigabyte_mobo::argb_headers();
    assert(headers[0] == 0x58 && headers[1] == 0x59 && headers[2] == 0x62 && headers[3] == 0x63);
    let two = packet.subrange(2, 4);
    reveal_with_fuel(wire::le_value, 3);
    assert(two.skip(1) =~= seq![packet[3]]);
    assert(two.skip(1).skip(1) =~= Seq::empty());
}

/// A payload that is too long is refused with its length and the longest that fits.
pub proof fn law_long_payloads_are_described(len: nat)
    ensures
        gigabyte_mobo::too_long_text(len) == "payload too long: "@ + text::decimal_text(len)
            + " bytes, max 63"@,
{
    reveal_strlit(" bytes, max 63");
    reveal_strlit(" bytes, max ");
    reveal_with_fuel(text::decimal_text, 3);
    assert(" bytes, max "@ + text::decimal_text(63) =~= " bytes, max 63"@);
    assert(gigabyte_mobo::too_long_text(len) =~= "payload too long: "@ + text::decimal_text(len) + (
    " bytes, max "@ + text::decimal_text(63)));
}

// ---------------------------------------------------------------------------
// Refusals
// ---------------------------------------------------------------------------

/// A backend that is asked to paint the device of another one names the device and says what it
/// is not; a key that stands for nothing is repeated.
pub proof fn law_refusals_are_described(
    mobo: &GigabyteMobo,
    gpu: &GigabyteGpu,
    ddr5: &GSkillDdr5,
    id: DeviceIdView,
)
    ensures
        ({
            let device = "device "@ + (id.backend + ":"@ + id.key);
            &&& backend::wrong_backend_text(id, mobo.kind()) == device + " is not "@
                + "a Gigabyte RGB Fusion 2 device"@
            &&& backend::wrong_backend_text(id, gpu.kind()) == device + " is not "@
                + "a Gigabyte GPU device"@
            &&& backend::wrong_backend_text(id, ddr5.kind()) == device + " is not "@
                + "a G.Skill DDR5 device"@
            &&& gpu.malformed_text(id.key) == "malformed device key "@ + id.key
            &&& ddr5.malformed_text(id.key) == "malformed device key `"@ + id.key + "`"@
        }),
{
}

/// A GPU that has gone is named by its place.
pub proof fn law_gone_gpus_are_described(index: nat)
    ensures
        gigabyte_gpu::gone_text(index) == "GPU index "@ + text::decimal_text(index)
            + " no longer enumerates"@,
{
}

} // verus!
