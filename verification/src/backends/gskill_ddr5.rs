//! G.Skill Trident Z5 DDR5 memory: the ENE controller on each DIMM, over SMBus.
//!
//! The SMBus is reached through PawnIO and one of two driver modules, `SmbusI801.bin` for Intel
//! chipsets and `SmbusPIIX4.bin` for AMD ones. They are looked for in these places, and the
//! first hit wins:
//!
//! - the directory that `$LIGHTSHOW_PAWNIO_MODULES_DIR` names
//! - `%LOCALAPPDATA%\lightshow\`
//! - the directory of the program
//! - `C:\Program Files\PawnIO\Modules\`
//! - the working directory

use crate::backend::{
    self, Backend, Color, Device, DeviceId, DeviceIdView, DeviceView, SetError,
};
use crate::backends::ene;
use crate::pawnio::{self, Ioctl, IoctlView, Module, SleepMode, SmbusXfer};
use crate::text;
use vstd::prelude::*;

pub use crate::backends::diag::{probe_diag, DiagEntry, DIAG_RANGES};
pub use crate::backends::ene::ene_read_block;

verus! {

/// The effect colors: 15 bytes, five LEDs.
pub const ENE_REG_COLORS_EFFECT: u16 = 0x8010;

pub const ENE_REG_DIRECT: u16 = 0x8020;

pub const ENE_REG_MODE: u16 = 0x8021;

pub const ENE_REG_APPLY: u16 = 0x80A0;

/// The effect colors of the newer chips: 30 bytes, ten LEDs.
pub const ENE_REG_COLORS_EFFECT_V2: u16 = 0x8160;

pub const ENE_MODE_STATIC: u8 = 0x01;

pub const ENE_APPLY_VAL: u8 = 0x01;

pub const LEDS: u16 = 5;

pub const LEDS_V2: u16 = 10;

// ---------------------------------------------------------------------------
// The driver module
// ---------------------------------------------------------------------------

/// The SMBus controllers for which there is a driver module.
#[derive(Debug, Clone, Copy, PartialEq, Eq, Structural)]
pub enum SmbusKind {
    IntelI801,
    AmdPiix4,
}

/// The file that holds a driver module.
pub open spec fn filename_of(kind: SmbusKind) -> Seq<char> {
    match kind {
        SmbusKind::IntelI801 => "SmbusI801.bin"@,
        SmbusKind::AmdPiix4 => "SmbusPIIX4.bin"@,
    }
}

/// The file that holds a driver module.
pub fn module_filename(kind: SmbusKind) -> (name: &'static str)
    ensures
        name@ == filename_of(kind),
{
    match kind {
        SmbusKind::IntelI801 => "SmbusI801.bin",
        SmbusKind::AmdPiix4 => "SmbusPIIX4.bin",
    }
}

/// A place in which a driver module is looked for.
#[derive(Debug, Clone, Copy, PartialEq, Eq, Structural)]
pub enum SearchDir {
    /// The directory that the user has named.
    Configured,
    /// The program's directory in the user's application data.
    LocalAppData,
    /// The directory of the program.
    ExeDir,
    /// The directory into which PawnIO is installed.
    ProgramFiles,
    /// The working directory.
    WorkingDir,
}

/// The place, if it is there, as a list.
pub open spec fn if_there(there: bool, dir: SearchDir) -> Seq<SearchDir> {
    if there {
        seq![dir]
    } else {
        Seq::empty()
    }
}

/// The places to look in, in their order. All but the installation directory can be missing.
pub open spec fn search_order(
    configured: bool,
    local_app_data: bool,
    exe_dir: bool,
    working_dir: bool,
) -> Seq<SearchDir> {
    if_there(configured, SearchDir::Configured) + if_there(
        local_app_data,
        SearchDir::LocalAppData,
    ) + if_there(exe_dir, SearchDir::ExeDir) + seq![SearchDir::ProgramFiles] + if_there(
        working_dir,
        SearchDir::WorkingDir,
    )
}

/// The places to look in, in their order.
pub fn search_dirs(configured: bool, local_app_data: bool, exe_dir: bool, working_dir: bool) -> (
    dirs: Vec<SearchDir>)
    ensures
        dirs@ == search_order(configured, local_app_data, exe_dir, working_dir),
{
    let mut dirs: Vec<SearchDir> = Vec::new();
    if configured {
        dirs.push(SearchDir::Configured);
    }
    if local_app_data {
        dirs.push(SearchDir::LocalAppData);
    }
    if exe_dir {
        dirs.push(SearchDir::ExeDir);
    }
    dirs.push(SearchDir::ProgramFiles);
    if working_dir {
        dirs.push(SearchDir::WorkingDir);
    }
    assert(dirs@ =~= search_order(configured, local_app_data, exe_dir, working_dir));
    dirs
}

/// The first place in which the file is present.
pub fn locate_module(dirs: &Vec<SearchDir>, present: &Vec<bool>) -> (place: Option<SearchDir>)
    requires
        dirs@.len() == present@.len(),
    ensures
        place is None <==> !present@.contains(true),
        place matches Some(dir) ==> exists|i: int|
            {
                &&& 0 <= i < dirs@.len()
                &&& #[trigger] present@[i]
                &&& dirs@[i] == dir
                &&& forall|k: int| 0 <= k < i ==> !(#[trigger] present@[k])
            },
{
    let mut i: usize = 0;
    while i < dirs.len()
        invariant
            i <= dirs@.len(),
            dirs@.len() == present@.len(),
            forall|k: int| 0 <= k < i ==> !(#[trigger] present@[k]),
        decreases dirs@.len() - i,
    {
        if present[i] {
            assert(present@[i as int]);
            return Some(dirs[i]);
        }
        i += 1;
    }
    None
}

/// What came of an attempt to open a driver module.
#[derive(Debug)]
pub enum Attempt {
    /// The file was in none of the places.
    Missing,
    /// The file was found, but loading it failed.
    Failed {
        /// Where the file is.
        path: String,
        /// What is said of the failure.
        error: String,
    },
    /// The module is loaded.
    Opened,
}

/// What to do next about the driver module.
#[derive(Debug)]
pub enum OpenStep {
    /// Try to open this one.
    Try(SmbusKind),
    /// This one is open.
    Use(SmbusKind),
    /// None can be opened; what is said of it.
    GiveUp(String),
}

/// The driver module that is tried at a place in the order: Intel first, then AMD.
pub open spec fn kind_at(place: int) -> SmbusKind {
    if place == 0 {
        SmbusKind::IntelI801
    } else {
        SmbusKind::AmdPiix4
    }
}

/// What is said of the last failed attempt, if an attempt failed.
pub open spec fn last_failure(tried: Seq<Attempt>) -> Option<Seq<char>>
    decreases tried.len(),
{
    if tried.len() == 0 {
        None
    } else {
        match tried.last() {
            Attempt::Failed { path, error } => Some(path@ + " → "@ + error@),
            _ => last_failure(tried.drop_last()),
        }
    }
}

/// What is said when no driver module can be opened.
pub open spec fn give_up_text(failure: Option<Seq<char>>) -> Seq<char> {
    match failure {
        Some(message) => "note: gskill-ddr5: SMBus pawn module load failed: "@ + message,
        None =>
            "note: gskill-ddr5: neither SmbusI801.bin nor SmbusPIIX4.bin found (set $LIGHTSHOW_PAWNIO_MODULES_DIR to a directory containing them)"@,
    }
}

/// Tries the Intel module first, then the AMD module. Says what to do after the attempts made
/// so far, in that order.
pub fn open_smbus_module(tried: &Vec<Attempt>) -> (step: OpenStep)
    requires
        tried@.len() <= 2,
        forall|i: int| 0 <= i < tried@.len() - 1 ==> !(#[trigger] tried@[i] is Opened),
    ensures
        step matches OpenStep::Try(kind) ==> kind == kind_at(tried@.len() as int),
        step matches OpenStep::Use(kind) ==> kind == kind_at(tried@.len() - 1),
        step matches OpenStep::GiveUp(note) ==> note@ == give_up_text(last_failure(tried@)),
        step is Use <==> tried@.len() > 0 && tried@.last() is Opened,
        step is GiveUp <==> tried@.len() == 2 && !(tried@.last() is Opened),
{
    let n: usize = tried.len();
    if n > 0 {
        if let Attempt::Opened = &tried[n - 1] {
            return OpenStep::Use(
                if n == 1 {
                    SmbusKind::IntelI801
                } else {
                    SmbusKind::AmdPiix4
                },
            );
        }
    }
    if n < 2 {
        return OpenStep::Try(
            if n == 0 {
                SmbusKind::IntelI801
            } else {
                SmbusKind::AmdPiix4
            },
        );
    }
    assert(tried@.take(2) =~= tried@);
    let mut i: usize = 2;
    while i > 0
        invariant
            i <= 2,
            tried@.len() == 2,
            !(tried@.last() is Opened),
            last_failure(tried@.take(i as int)) == last_failure(tried@),
        decreases i,
    {
        i -= 1;
        assert(tried@.take(i + 1).drop_last() =~= tried@.take(i as int));
        if let Attempt::Failed { path, error } = &tried[i] {
            let mut note = "note: gskill-ddr5: SMBus pawn module load failed: ".to_owned();
            note.append(path.as_str());
            note.append(" → ");
            note.append(error.as_str());
            assert(note@ =~= give_up_text(last_failure(tried@)));
            return OpenStep::GiveUp(note);
        }
    }
    OpenStep::GiveUp(
        "note: gskill-ddr5: neither SmbusI801.bin nor SmbusPIIX4.bin found (set $LIGHTSHOW_PAWNIO_MODULES_DIR to a directory containing them)".to_owned(),
    )
}

/// What a driver module is called in notes.
pub open spec fn kind_text(kind: SmbusKind) -> Seq<char> {
    match kind {
        SmbusKind::IntelI801 => "IntelI801"@,
        SmbusKind::AmdPiix4 => "AmdPiix4"@,
    }
}

/// What is said when the bus is ready and no controller was found on it; nothing where one was.
pub fn detection_note(kind: SmbusKind, addrs: &Vec<u8>) -> (note: Option<String>)
    ensures
        note is Some == (addrs@.len() == 0),
        note matches Some(text) ==> text@ == "note: gskill-ddr5: PawnIO ("@ + kind_text(kind)
            + ") ready, no ENE controllers found"@,
{
    if addrs.len() > 0 {
        return None;
    }
    let mut text = "note: gskill-ddr5: PawnIO (".to_owned();
    text.append(
        match kind {
            SmbusKind::IntelI801 => "IntelI801",
            SmbusKind::AmdPiix4 => "AmdPiix4",
        },
    );
    text.append(") ready, no ENE controllers found");
    Some(text)
}

/// The requests of a list, as mathematical values.
pub open spec fn request_views(list: Seq<Ioctl>) -> Seq<IoctlView> {
    list.map_values(|c: Ioctl| c@)
}

/// The requests that set up a driver module: the AMD module is told to sleep between
/// transactions and to use port 0, where DDR5 lives; the Intel module has no such calls.
pub open spec fn setup_requests(kind: SmbusKind) -> Seq<IoctlView> {
    match kind {
        SmbusKind::AmdPiix4 => seq![
            IoctlView {
                name: "ioctl_set_sleep_mode"@,
                input: seq![pawnio::sleep_code(SleepMode::AlwaysSleep)],
                output_len: 0,
            },
            IoctlView { name: "ioctl_piix4_port_sel"@, input: seq![0u64], output_len: 1 },
        ],
        SmbusKind::IntelI801 => Seq::empty(),
    }
}

/// The requests that set up a driver module.
pub fn configure(kind: SmbusKind) -> (calls: Vec<Ioctl>)
    ensures
        request_views(calls@) == setup_requests(kind),
{
    let mut calls: Vec<Ioctl> = Vec::new();
    match kind {
        SmbusKind::AmdPiix4 => {
            calls.push(Module::set_sleep_mode(SleepMode::AlwaysSleep));
            calls.push(Module::piix4_port_sel(0));
        },
        SmbusKind::IntelI801 => {},
    }
    assert(request_views(calls@) =~= setup_requests(kind));
    calls
}

// ---------------------------------------------------------------------------
// Painting
// ---------------------------------------------------------------------------

/// The transactions that write one LED's color. The chip's order is red, blue, green.
pub open spec fn led_xfers(addr: u8, base: nat, color: Color) -> Seq<SmbusXfer> {
    ene::write_xfers(addr, base as u16, color.r) + ene::write_xfers(
        addr,
        (base + 1) as u16,
        color.b,
    ) + ene::write_xfers(addr, (base + 2) as u16, color.g)
}

/// The transactions that write the colors of the first `leds` LEDs of a block.
pub open spec fn block_xfers(addr: u8, start: nat, color: Color, leds: nat) -> Seq<SmbusXfer>
    decreases leds,
{
    if leds == 0 {
        Seq::empty()
    } else {
        block_xfers(addr, start, color, (leds - 1) as nat) + led_xfers(
            addr,
            start + 3 * (leds - 1) as nat,
            color,
        )
    }
}

/// The transactions that paint a DIMM one color: direct mode off, so that the chip shows the
/// effect registers; static mode; the colors in both register banks; apply.
pub open spec fn paint_xfers(addr: u8, color: Color) -> Seq<SmbusXfer> {
    ene::write_xfers(addr, ENE_REG_DIRECT, 0x00) + ene::write_xfers(
        addr,
        ENE_REG_MODE,
        ENE_MODE_STATIC,
    ) + block_xfers(addr, ENE_REG_COLORS_EFFECT as nat, color, LEDS as nat) + block_xfers(
        addr,
        ENE_REG_COLORS_EFFECT_V2 as nat,
        color,
        LEDS_V2 as nat,
    ) + ene::write_xfers(addr, ENE_REG_APPLY, ENE_APPLY_VAL)
}

/// Appends transactions to a list.
fn extend(list: &mut Vec<SmbusXfer>, more: &Vec<SmbusXfer>)
    ensures
        final(list)@ == old(list)@ + more@,
{
    let mut i: usize = 0;
    let ghost start = list@;
    assert(start + more@.take(0) =~= start);
    while i < more.len()
        invariant
            i <= more@.len(),
            list@ == start + more@.take(i as int),
        decreases more@.len() - i,
    {
        list.push(more[i]);
        i += 1;
        assert(list@ =~= start + more@.take(i as int));
    }
    assert(more@.take(i as int) =~= more@);
}

/// The transactions that write `led_count` color triplets to a block of color registers. The
/// chip's order within a triplet is red, blue, green.
pub fn ene_write_color_block(addr: u8, start_reg: u16, color: Color, led_count: u16) -> (list: Vec<
    SmbusXfer,
>)
    requires
        start_reg + 3 * led_count <= 0x1_0000,
    ensures
        list@ == block_xfers(addr, start_reg as nat, color, led_count as nat),
{
    let mut list: Vec<SmbusXfer> = Vec::new();
    let mut led: u16 = 0;
    assert(list@ =~= Seq::<SmbusXfer>::empty());
    while led < led_count
        invariant
            led <= led_count,
            start_reg + 3 * led_count <= 0x1_0000,
            list@ == block_xfers(addr, start_reg as nat, color, led as nat),
        decreases led_count - led,
    {
        let base: u16 = start_reg + led * 3;
        let ghost before = list@;
        extend(&mut list, &ene::ene_write(addr, base, color.r));
        extend(&mut list, &ene::ene_write(addr, base + 1, color.b));
        extend(&mut list, &ene::ene_write(addr, base + 2, color.g));
        assert(list@ =~= before + led_xfers(addr, base as nat, color));
        led += 1;
    }
    list
}

/// The transactions that paint a DIMM one color.
pub fn painting(addr: u8, color: Color) -> (list: Vec<SmbusXfer>)
    ensures
        list@ == paint_xfers(addr, color),
{
    let mut list = ene::ene_write(addr, ENE_REG_DIRECT, 0x00);
    extend(&mut list, &ene::ene_write(addr, ENE_REG_MODE, ENE_MODE_STATIC));
    extend(&mut list, &ene_write_color_block(addr, ENE_REG_COLORS_EFFECT, color, LEDS));
    extend(&mut list, &ene_write_color_block(addr, ENE_REG_COLORS_EFFECT_V2, color, LEDS_V2));
    extend(&mut list, &ene::ene_write(addr, ENE_REG_APPLY, ENE_APPLY_VAL));
    list
}

// ---------------------------------------------------------------------------
// The backend
// ---------------------------------------------------------------------------

/// The key of the controller at an address.
pub open spec fn ene_key(addr: u8) -> Seq<char> {
    "ene-0x"@ + text::hex_text(addr as nat, 2, false)
}

/// The address that a key stands for.
pub open spec fn key_address(key: Seq<char>) -> Option<nat> {
    if text::begins_with(key, "ene-0x"@) {
        text::unsigned_number(key.skip(6), 16, 255)
    } else {
        None
    }
}

/// The device for the controller at an address.
pub open spec fn ene_device(addr: u8) -> DeviceView {
    DeviceView {
        id: DeviceIdView { backend: "gskill-ddr5"@, key: ene_key(addr) },
        vendor: "G.Skill"@,
        name: "G.Skill DDR5 RGB (ENE)"@,
        zones: backend::whole_device(),
    }
}

/// The backend for this memory.
pub struct GSkillDdr5;

/// What has to be sent to a device: the controller's address and the transactions to make, in
/// order, up to the first that fails.
#[derive(Debug)]
pub struct EnePlan {
    pub addr: u8,
    pub xfers: Vec<SmbusXfer>,
}

/// An `EnePlan` as mathematical values.
pub struct EnePlanView {
    pub addr: u8,
    pub xfers: Seq<SmbusXfer>,
}

impl View for EnePlan {
    type V = EnePlanView;

    open spec fn view(&self) -> EnePlanView {
        EnePlanView { addr: self.addr, xfers: self.xfers@ }
    }
}

impl GSkillDdr5 {
    pub fn new() -> (b: Self)
        ensures
            b.label() == "gskill-ddr5"@,
    {
        GSkillDdr5
    }
}

/// The address that a key stands for.
fn address_of_key(key: &str) -> (addr: Option<u8>)
    ensures
        addr is Some == key_address(key@) is Some,
        addr matches Some(a) ==> key_address(key@) == Some(a as nat),
{
    let chars = text::chars_of(key);
    let prefix = text::chars_of("ene-0x");
    proof {
        reveal_strlit("ene-0x");
    }
    if !text::starts_with(&chars, &prefix) {
        return None;
    }
    assert(chars@.subrange(6, chars@.len() as int) =~= key@.skip(6));
    match text::read_unsigned(&chars, 6, chars.len(), 16, 255) {
        Some(v) => Some(v as u8),
        None => None,
    }
}

impl Backend for GSkillDdr5 {
    /// The addresses of the controllers; `None` where PawnIO or its SMBus module is missing.
    type Found = Option<Vec<u8>>;

    type Plan = EnePlan;

    open spec fn label(&self) -> Seq<char> {
        "gskill-ddr5"@
    }

    open spec fn kind(&self) -> Seq<char> {
        "a G.Skill DDR5 device"@
    }

    open spec fn devices_in(&self, found: Option<Vec<u8>>) -> Seq<DeviceView> {
        match found {
            Some(addrs) => addrs@.map_values(|addr: u8| ene_device(addr)),
            None => Seq::empty(),
        }
    }

    open spec fn plan_for(&self, key: Seq<char>, color: Color) -> Option<EnePlanView> {
        match key_address(key) {
            Some(addr) => Some(
                EnePlanView { addr: addr as u8, xfers: paint_xfers(addr as u8, color) },
            ),
            None => None,
        }
    }

    open spec fn malformed_text(&self, key: Seq<char>) -> Seq<char> {
        "malformed device key `"@ + key + "`"@
    }

    proof fn law_enumerated_devices_can_be_painted(
        &self,
        found: Option<Vec<u8>>,
        color: Color,
        i: int,
    ) {
        law_ene_key_reads_back(found.unwrap()@[i]);
    }

    fn name(&self) -> (n: &'static str) {
        "gskill-ddr5"
    }

    fn enumerate(&self, found: &Option<Vec<u8>>) -> (list: Vec<Device>) {
        let mut list: Vec<Device> = Vec::new();
        assert(backend::device_views(list@) =~= Seq::<DeviceView>::empty());
        let addrs = match found {
            Some(addrs) => addrs,
            None => {
                return list;
            },
        };
        let ghost all = addrs@.map_values(|addr: u8| ene_device(addr));
        let mut i: usize = 0;
        assert(backend::device_views(list@) =~= all.take(0));
        while i < addrs.len()
            invariant
                i <= addrs@.len(),
                all == addrs@.map_values(|addr: u8| ene_device(addr)),
                backend::device_views(list@) == all.take(i as int),
            decreases addrs@.len() - i,
        {
            let mut key = "ene-0x".to_owned();
            text::push_hex(&mut key, addrs[i] as u32, 2, false);
            let ghost before = backend::device_views(list@);
            list.push(
                Device {
                    id: DeviceId { backend: "gskill-ddr5", key },
                    vendor: "G.Skill",
                    name: "G.Skill DDR5 RGB (ENE)".to_owned(),
                    zones: backend::whole_device_zones(),
                },
            );
            assert(list@.last()@ == all[i as int]);
            assert(backend::device_views(list@) =~= before.push(list@.last()@));
            i += 1;
            assert(backend::device_views(list@) =~= all.take(i as int));
        }
        assert(all.take(i as int) =~= all);
        list
    }

    fn set_static(&self, device: &Device, color: Color) -> (r: Result<EnePlan, SetError>) {
        if !text::same_text(device.id.backend, "gskill-ddr5") {
            return Err(
                SetError::WrongBackend(
                    backend::wrong_backend(&device.id, "a G.Skill DDR5 device"),
                ),
            );
        }
        match address_of_key(device.id.key.as_str()) {
            Some(addr) => Ok(EnePlan { addr, xfers: painting(addr, color) }),
            None => {
                let mut message = "malformed device key `".to_owned();
                message.append(device.id.key.as_str());
                message.append("`");
                Err(SetError::MalformedKey(message))
            },
        }
    }
}

/// A key gives back the address that it was made for.
pub proof fn law_ene_key_reads_back(addr: u8)
    ensures
        key_address(ene_key(addr)) == Some(addr as nat),
{
    reveal_strlit("ene-0x");
    reveal_with_fuel(text::hex_capacity, 3);
    assert(ene_key(addr).take(6) =~= "ene-0x"@);
    assert(ene_key(addr).skip(6) =~= text::hex_text(addr as nat, 2, false));
    text::law_hex_reads_back(addr as nat, 2, false, 255);
}

/// Different controllers have different keys.
pub proof fn law_ene_keys_are_distinct(a: u8, b: u8)
    requires
        ene_key(a) == ene_key(b),
    ensures
        a == b,
{
    law_ene_key_reads_back(a);
    law_ene_key_reads_back(b);
}

// ---------------------------------------------------------------------------
// What painting does to the chip
// ---------------------------------------------------------------------------

/// The byte that a place in a color block holds once it is painted: red, blue, green.
pub open spec fn rbg_byte(color: Color, place: int) -> u8 {
    if place % 3 == 0 {
        color.r
    } else if place % 3 == 1 {
        color.b
    } else {
        color.g
    }
}

/// The register lies within a color block.
pub open spec fn in_block(reg: u16, start: nat, leds: nat) -> bool {
    start <= reg < start + 3 * leds
}

proof fn lemma_block_lands(
    chip: ene::EneChip,
    addr: u8,
    start: nat,
    color: Color,
    leds: nat,
)
    requires
        start + 3 * leds <= 0x1_0000,
    ensures
        ({
            let end = ene::chip_after_all(chip, addr, block_xfers(addr, start, color, leds));
            forall|reg: u16| #[trigger]
                ene::held(end, reg) == if in_block(reg, start, leds) {
                    Some(rbg_byte(color, reg - start))
                } else {
                    ene::held(chip, reg)
                }
        }),
    decreases leds,
{
    if leds > 0 {
        let less = (leds - 1) as nat;
        lemma_block_lands(chip, addr, start, color, less);
        let before = block_xfers(addr, start, color, less);
        let base = start + 3 * less;
        let w1 = ene::write_xfers(addr, base as u16, color.r);
        let w2 = ene::write_xfers(addr, (base + 1) as u16, color.b);
        let w3 = ene::write_xfers(addr, (base + 2) as u16, color.g);
        let c0 = ene::chip_after_all(chip, addr, before);
        let c1 = ene::chip_after_all(c0, addr, w1);
        let c2 = ene::chip_after_all(c1, addr, w2);
        ene::lemma_chip_after_two(chip, addr, before, w1 + w2 + w3);
        ene::lemma_chip_after_two(c0, addr, w1 + w2, w3);
        ene::lemma_chip_after_two(c0, addr, w1, w2);
        ene::law_write_lands(c0, addr, base as u16, color.r);
        ene::law_write_lands(c1, addr, (base + 1) as u16, color.b);
        ene::law_write_lands(c2, addr, (base + 2) as u16, color.g);
        let end = ene::chip_after_all(chip, addr, block_xfers(addr, start, color, leds));
        assert forall|reg: u16| #[trigger]
            ene::held(end, reg) == if in_block(reg, start, leds) {
                Some(rbg_byte(color, reg - start))
            } else {
                ene::held(chip, reg)
            } by {
            assert(ene::held(c0, reg) == if in_block(reg, start, less) {
                Some(rbg_byte(color, reg - start))
            } else {
                ene::held(chip, reg)
            });
        }
    }
}

/// What a register holds once a chip is painted: direct mode is off, the mode is static, the
/// change is applied, and every LED of both register banks has its color. The other registers
/// hold what they held.
pub open spec fn painted(chip: ene::EneChip, color: Color, reg: u16) -> Option<u8> {
    if reg == ENE_REG_DIRECT {
        Some(0u8)
    } else if reg == ENE_REG_MODE {
        Some(ENE_MODE_STATIC)
    } else if reg == ENE_REG_APPLY {
        Some(ENE_APPLY_VAL)
    } else if in_block(reg, ENE_REG_COLORS_EFFECT as nat, LEDS as nat) {
        Some(rbg_byte(color, reg - ENE_REG_COLORS_EFFECT))
    } else if in_block(reg, ENE_REG_COLORS_EFFECT_V2 as nat, LEDS_V2 as nat) {
        Some(rbg_byte(color, reg - ENE_REG_COLORS_EFFECT_V2))
    } else {
        ene::held(chip, reg)
    }
}

/// Painting leaves the chip in the static effect mode with direct mode off and the change
/// applied; every LED of both register banks holds the color as red, blue, green; no other
/// register has changed.
pub proof fn law_painting_sets_the_registers(chip: ene::EneChip, addr: u8, color: Color)
    ensures
        ({
            let end = ene::chip_after_all(chip, addr, paint_xfers(addr, color));
            forall|reg: u16| #[trigger] ene::held(end, reg) == painted(chip, color, reg)
        }),
{
    let w1 = ene::write_xfers(addr, ENE_REG_DIRECT, 0x00);
    let w2 = ene::write_xfers(addr, ENE_REG_MODE, ENE_MODE_STATIC);
    let b1 = block_xfers(addr, ENE_REG_COLORS_EFFECT as nat, color, LEDS as nat);
    let b2 = block_xfers(addr, ENE_REG_COLORS_EFFECT_V2 as nat, color, LEDS_V2 as nat);
    let w3 = ene::write_xfers(addr, ENE_REG_APPLY, ENE_APPLY_VAL);
    ene::lemma_chip_after_two(chip, addr, w1 + w2 + b1 + b2, w3);
    ene::lemma_chip_after_two(chip, addr, w1 + w2 + b1, b2);
    ene::lemma_chip_after_two(chip, addr, w1 + w2, b1);
    ene::lemma_chip_after_two(chip, addr, w1, w2);
    let c1 = ene::chip_after_all(chip, addr, w1);
    let c2 = ene::chip_after_all(c1, addr, w2);
    let c3 = ene::chip_after_all(c2, addr, b1);
    let c4 = ene::chip_after_all(c3, addr, b2);
    ene::law_write_lands(chip, addr, ENE_REG_DIRECT, 0x00);
    ene::law_write_lands(c1, addr, ENE_REG_MODE, ENE_MODE_STATIC);
    lemma_block_lands(c2, addr, ENE_REG_COLORS_EFFECT as nat, color, LEDS as nat);
    lemma_block_lands(c3, addr, ENE_REG_COLORS_EFFECT_V2 as nat, color, LEDS_V2 as nat);
    ene::law_write_lands(c4, addr, ENE_REG_APPLY, ENE_APPLY_VAL);
    let end = ene::chip_after_all(chip, addr, paint_xfers(addr, color));
    assert forall|reg: u16| #[trigger] ene::held(end, reg) == painted(chip, color, reg) by {
        assert(ene::held(c4, reg) == if in_block(
            reg,
            ENE_REG_COLORS_EFFECT_V2 as nat,
            LEDS_V2 as nat,
        ) {
            Some(rbg_byte(color, reg - ENE_REG_COLORS_EFFECT_V2))
        } else {
            ene::held(c3, reg)
        });
        assert(ene::held(c2, reg) == if reg == ENE_REG_MODE {
            Some(ENE_MODE_STATIC)
        } else if reg == ENE_REG_DIRECT {
            Some(0u8)
        } else {
            ene::held(chip, reg)
        });
    }
}

/// A painting that meets no failure has sent all of its transactions, so that the chip is
/// painted.
pub proof fn law_successful_painting_lands(
    bus: ene::Bus,
    chip: ene::EneChip,
    addr: u8,
    color: Color,
)
    requires
        ene::list_run(bus, Seq::empty(), paint_xfers(addr, color), 0).1 is None,
    ensures
        ({
            let sent = ene::list_run(bus, Seq::empty(), paint_xfers(addr, color), 0).0;
            let end = ene::chip_after_all(chip, addr, sent);
            forall|reg: u16| #[trigger] ene::held(end, reg) == painted(chip, color, reg)
        }),
{
    let list = paint_xfers(addr, color);
    ene::law_list_is_sent_up_to_a_failure(bus, Seq::empty(), list, 0);
    assert(Seq::empty() + list.subrange(0, list.len() as int) =~= list);
    law_painting_sets_the_registers(chip, addr, color);
}

/// All the transactions go to one address.
pub open spec fn all_to(list: Seq<SmbusXfer>, addr: u8) -> bool {
    forall|i: int| 0 <= i < list.len() ==> pawnio::target_of(#[trigger] list[i]) == addr
}

proof fn lemma_block_is_all_to(addr: u8, start: nat, color: Color, leds: nat)
    ensures
        all_to(block_xfers(addr, start, color, leds), addr),
    decreases leds,
{
    if leds > 0 {
        lemma_block_is_all_to(addr, start, color, (leds - 1) as nat);
    }
}

proof fn lemma_others_stay(chip: ene::EneChip, other: u8, list: Seq<SmbusXfer>, addr: u8)
    requires
        all_to(list, addr),
        addr != other,
    ensures
        ene::chip_after_all(chip, other, list) == chip,
    decreases list.len(),
{
    if list.len() > 0 {
        assert(pawnio::target_of(list[list.len() - 1]) == addr);
        assert forall|i: int| 0 <= i < list.drop_last().len() implies pawnio::target_of(
            #[trigger] list.drop_last()[i],
        ) == addr by {
            assert(list.drop_last()[i] == list[i]);
        }
        lemma_others_stay(chip, other, list.drop_last(), addr);
    }
}

/// Painting one DIMM leaves the chips at all other addresses as they were.
pub proof fn law_painting_leaves_other_chips(
    chip: ene::EneChip,
    addr: u8,
    other: u8,
    color: Color,
)
    requires
        addr != other,
    ensures
        ene::chip_after_all(chip, other, paint_xfers(addr, color)) == chip,
{
    lemma_block_is_all_to(addr, ENE_REG_COLORS_EFFECT as nat, color, LEDS as nat);
    lemma_block_is_all_to(addr, ENE_REG_COLORS_EFFECT_V2 as nat, color, LEDS_V2 as nat);
    lemma_others_stay(chip, other, paint_xfers(addr, color), addr);
}

} // verus!
