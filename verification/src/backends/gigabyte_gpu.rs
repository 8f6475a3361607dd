//! Gigabyte RTX 40-series cards: the RGB controller on the GPU's internal I2C bus.
//!
//! The controller takes writes of eight bytes. The first byte is the register.

use crate::backend::{
    self, Backend, Color, Device, DeviceId, DeviceIdView, DeviceView, SetError,
};
use crate::nvapi::PciIdentifiers;
use crate::text;
use vstd::prelude::*;

verus! {

pub const NVIDIA_VEN: u32 = 0x10DE;

pub const GIGABYTE_SUB_VEN: u32 = 0x1458;

/// The 7-bit I2C address of the controller.
pub const I2C_ADDR: u8 = 0x71;

/// The I2C port on which the controller normally is.
pub const I2C_PORT: u8 = 1;

/// The highest I2C port.
pub const LAST_PORT: u8 = 7;

pub const REG_COLOR_SINGLE: u8 = 0x40;

pub const REG_MODE: u8 = 0x88;

/// The register for the colors of zones 0 and 1.
pub const REG_COLOR_LEFT_MID: u8 = 0xB0;

/// The register for the color of zone 2.
pub const REG_COLOR_RIGHT: u8 = 0xB1;

pub const MODE_STATIC: u8 = 0x01;

pub const SPEED_NORMAL: u8 = 0x02;

pub const BRIGHTNESS_MAX: u8 = 0x63;

pub const NUM_ZONES: u8 = 4;

// ---------------------------------------------------------------------------
// Discovery
// ---------------------------------------------------------------------------

/// The name of a card, by its PCI device and its subsystem device.
pub open spec fn card_name(device: nat, subsystem: nat) -> Option<Seq<char>> {
    if device != 0x2684 {
        None
    } else if subsystem == 0x40BF {
        Some("Gigabyte GeForce RTX 4090 GAMING OC"@)
    } else if subsystem == 0x21D1 {
        Some("AORUS GeForce RTX 4090 MASTER"@)
    } else if subsystem == 0x40BD {
        Some("Gigabyte GeForce RTX 4090 AERO OC"@)
    } else {
        None
    }
}

/// The name of the card behind PCI identifiers, if it is a known card of this maker.
pub open spec fn gpu_name(ids: PciIdentifiers) -> Option<Seq<char>> {
    if ids.device_id % 0x1_0000 == NVIDIA_VEN && ids.subsystem_id % 0x1_0000 == GIGABYTE_SUB_VEN {
        card_name((ids.device_id / 0x1_0000) as nat, (ids.subsystem_id / 0x1_0000) as nat)
    } else {
        None
    }
}

/// The key of the GPU at a place in the driver's enumeration.
pub open spec fn gpu_key(index: nat) -> Seq<char> {
    "nvapi-"@ + text::decimal_text(index)
}

/// The place in the driver's enumeration that a key stands for.
pub open spec fn key_index(key: Seq<char>) -> Option<nat> {
    if text::begins_with(key, "nvapi-"@) {
        text::unsigned_number(key.skip(6), 10, usize::MAX as nat)
    } else {
        None
    }
}

/// The device for the GPU at a place.
pub open spec fn gpu_device(index: nat, name: Seq<char>) -> DeviceView {
    DeviceView {
        id: DeviceIdView { backend: "gigabyte-gpu"@, key: gpu_key(index) },
        vendor: "Gigabyte"@,
        name,
        zones: backend::whole_device(),
    }
}

/// The devices among the GPUs, in the order of the driver's enumeration.
pub open spec fn gpu_devices(gpus: Seq<PciIdentifiers>) -> Seq<DeviceView>
    decreases gpus.len(),
{
    if gpus.len() == 0 {
        Seq::empty()
    } else {
        let before = gpu_devices(gpus.drop_last());
        match gpu_name(gpus.last()) {
            Some(name) => before.push(gpu_device((gpus.len() - 1) as nat, name)),
            None => before,
        }
    }
}

/// The name of the card behind PCI identifiers, if it is a known card of this maker.
pub fn recognize(ids: &PciIdentifiers) -> (name: Option<&'static str>)
    ensures
        name is Some == gpu_name(*ids) is Some,
        name matches Some(n) ==> gpu_name(*ids) == Some(n@),
{
    if ids.device_id % 0x1_0000 != NVIDIA_VEN || ids.subsystem_id % 0x1_0000 != GIGABYTE_SUB_VEN {
        return None;
    }
    if ids.device_id / 0x1_0000 != 0x2684 {
        return None;
    }
    let subsystem: u32 = ids.subsystem_id / 0x1_0000;
    if subsystem == 0x40BF {
        Some("Gigabyte GeForce RTX 4090 GAMING OC")
    } else if subsystem == 0x21D1 {
        Some("AORUS GeForce RTX 4090 MASTER")
    } else if subsystem == 0x40BD {
        Some("Gigabyte GeForce RTX 4090 AERO OC")
    } else {
        None
    }
}

// ---------------------------------------------------------------------------
// Packets
// ---------------------------------------------------------------------------

/// The packet that sets a zone to the static mode at full brightness.
pub open spec fn mode_packet(zone: nat) -> Seq<u8> {
    seq![
        REG_MODE,
        MODE_STATIC,
        SPEED_NORMAL,
        BRIGHTNESS_MAX,
        0x00u8,
        (zone + 1) as u8,
        0x00u8,
        0x00u8,
    ]
}

/// The packet that sets the color of a zone. Zones 0 and 1 share a register, which takes both
/// colors; zone 2 has its own; the other zones are named in the packet.
pub open spec fn color_packet(zone: nat, c: Color) -> Seq<u8> {
    if zone == 0 || zone == 1 {
        seq![REG_COLOR_LEFT_MID, MODE_STATIC, c.r, c.g, c.b, c.r, c.g, c.b]
    } else if zone == 2 {
        seq![REG_COLOR_RIGHT, MODE_STATIC, c.r, c.g, c.b, 0u8, 0u8, 0u8]
    } else {
        seq![REG_COLOR_SINGLE, c.r, c.g, c.b, (zone + 1) as u8, 0u8, 0u8, 0u8]
    }
}

/// The packets that paint the first `zones` zones: mode, then color, zone by zone.
pub open spec fn paint_packets(color: Color, zones: nat) -> Seq<Seq<u8>>
    decreases zones,
{
    if zones == 0 {
        Seq::empty()
    } else {
        let zone = (zones - 1) as nat;
        paint_packets(color, zone).push(mode_packet(zone)).push(color_packet(zone, color))
    }
}

/// The packet that sets a zone to the static mode at full brightness.
pub fn write_mode(zone: u8) -> (packet: [u8; 8])
    requires
        zone < 255,
    ensures
        packet@ == mode_packet(zone as nat),
{
    let packet: [u8; 8] = [
        REG_MODE,
        MODE_STATIC,
        SPEED_NORMAL,
        BRIGHTNESS_MAX,
        0x00,
        zone + 1,
        0x00,
        0x00,
    ];
    assert(packet@ =~= mode_packet(zone as nat));
    packet
}

/// The packet that sets the color of a zone.
pub fn write_color(zone: u8, c: Color) -> (packet: [u8; 8])
    requires
        zone < 255,
    ensures
        packet@ == color_packet(zone as nat, c),
{
    let packet: [u8; 8] = if zone == 0 || zone == 1 {
        [REG_COLOR_LEFT_MID, MODE_STATIC, c.r, c.g, c.b, c.r, c.g, c.b]
    } else if zone == 2 {
        [REG_COLOR_RIGHT, MODE_STATIC, c.r, c.g, c.b, 0, 0, 0]
    } else {
        [REG_COLOR_SINGLE, c.r, c.g, c.b, zone + 1, 0, 0, 0]
    };
    assert(packet@ =~= color_packet(zone as nat, c));
    packet
}

// ---------------------------------------------------------------------------
// The backend
// ---------------------------------------------------------------------------

/// The backend for these cards.
pub struct GigabyteGpu;

/// What has to be sent to a device: the GPU's place in the driver's enumeration and the packets
/// to write, in order.
#[derive(Debug)]
pub struct GpuPlan {
    pub index: usize,
    pub packets: Vec<[u8; 8]>,
}

/// A `GpuPlan` as mathematical values.
pub struct GpuPlanView {
    pub index: nat,
    pub packets: Seq<Seq<u8>>,
}

/// The packets of a list, as mathematical values.
pub open spec fn packet_views(list: Seq<[u8; 8]>) -> Seq<Seq<u8>> {
    list.map_values(|p: [u8; 8]| p@)
}

impl View for GpuPlan {
    type V = GpuPlanView;

    open spec fn view(&self) -> GpuPlanView {
        GpuPlanView { index: self.index as nat, packets: packet_views(self.packets@) }
    }
}

impl GigabyteGpu {
    pub fn new() -> (b: Self)
        ensures
            b.label() == "gigabyte-gpu"@,
    {
        GigabyteGpu
    }
}

/// The packets that paint all zones one color.
pub fn painting(color: Color) -> (packets: Vec<[u8; 8]>)
    ensures
        packet_views(packets@) == paint_packets(color, NUM_ZONES as nat),
{
    let mut packets: Vec<[u8; 8]> = Vec::new();
    let mut zone: u8 = 0;
    assert(packet_views(packets@) =~= Seq::<Seq<u8>>::empty());
    while zone < NUM_ZONES
        invariant
            zone <= NUM_ZONES,
            packet_views(packets@) == paint_packets(color, zone as nat),
        decreases NUM_ZONES - zone,
    {
        let ghost before = packet_views(packets@);
        packets.push(write_mode(zone));
        packets.push(write_color(zone, color));
        assert(packet_views(packets@) =~= before.push(mode_packet(zone as nat)).push(
            color_packet(zone as nat, color),
        ));
        zone += 1;
    }
    packets
}

/// The place in the driver's enumeration that a key stands for.
fn index_of_key(key: &str) -> (index: Option<usize>)
    ensures
        index is Some == key_index(key@) is Some,
        index matches Some(i) ==> key_index(key@) == Some(i as nat),
{
    let chars = text::chars_of(key);
    let prefix = text::chars_of("nvapi-");
    proof {
        reveal_strlit("nvapi-");
    }
    if !text::starts_with(&chars, &prefix) {
        return None;
    }
    assert(chars@.subrange(6, chars@.len() as int) =~= key@.skip(6));
    match text::read_unsigned(&chars, 6, chars.len(), 10, usize::MAX as u64) {
        Some(v) => Some(v as usize),
        None => None,
    }
}

/// What is said of a GPU that has gone since it was enumerated.
pub open spec fn gone_text(index: nat) -> Seq<char> {
    "GPU index "@ + text::decimal_text(index) + " no longer enumerates"@
}

/// Whether the GPU that a plan is for is among the `count` GPUs that the driver enumerates now.
pub fn still_present(plan: &GpuPlan, count: usize) -> (r: Result<usize, String>)
    ensures
        r is Ok <==> plan.index < count,
        r matches Ok(index) ==> index == plan.index,
        r matches Err(message) ==> message@ == gone_text(plan.index as nat),
{
    if plan.index < count {
        return Ok(plan.index);
    }
    let mut message = "GPU index ".to_owned();
    text::push_decimal(&mut message, plan.index as u64);
    message.append(" no longer enumerates");
    Err(message)
}

impl Backend for GigabyteGpu {
    /// The PCI identifiers of the GPUs; `None` where the driver is not installed.
    type Found = Option<Vec<PciIdentifiers>>;

    type Plan = GpuPlan;

    open spec fn label(&self) -> Seq<char> {
        "gigabyte-gpu"@
    }

    open spec fn kind(&self) -> Seq<char> {
        "a Gigabyte GPU device"@
    }

    open spec fn devices_in(&self, found: Option<Vec<PciIdentifiers>>) -> Seq<DeviceView> {
        match found {
            Some(gpus) => gpu_devices(gpus@),
            None => Seq::empty(),
        }
    }

    open spec fn plan_for(&self, key: Seq<char>, color: Color) -> Option<GpuPlanView> {
        match key_index(key) {
            Some(index) => Some(
                GpuPlanView { index, packets: paint_packets(color, NUM_ZONES as nat) },
            ),
            None => None,
        }
    }

    open spec fn malformed_text(&self, key: Seq<char>) -> Seq<char> {
        "malformed device key "@ + key
    }

    proof fn law_enumerated_devices_can_be_painted(
        &self,
        found: Option<Vec<PciIdentifiers>>,
        color: Color,
        i: int,
    ) {
        let gpus = found.unwrap();
        assert(gpus.len() == gpus@.len());
        law_devices_keep_their_places(gpus@);
        law_gpu_key_reads_back(known_places(gpus@)[i]);
    }

    fn name(&self) -> (n: &'static str) {
        "gigabyte-gpu"
    }

    fn enumerate(&self, found: &Option<Vec<PciIdentifiers>>) -> (list: Vec<Device>) {
        let mut list: Vec<Device> = Vec::new();
        assert(backend::device_views(list@) =~= Seq::<DeviceView>::empty());
        let gpus = match found {
            Some(gpus) => gpus,
            None => {
                return list;
            },
        };
        let mut i: usize = 0;
        while i < gpus.len()
            invariant
                i <= gpus@.len(),
                backend::device_views(list@) == gpu_devices(gpus@.take(i as int)),
            decreases gpus@.len() - i,
        {
            assert(gpus@.take(i + 1).drop_last() =~= gpus@.take(i as int));
            if let Some(name) = recognize(&gpus[i]) {
                let mut key = "nvapi-".to_owned();
                text::push_decimal(&mut key, i as u64);
                let ghost before = backend::device_views(list@);
                list.push(
                    Device {
                        id: DeviceId { backend: "gigabyte-gpu", key },
                        vendor: "Gigabyte",
                        name: name.to_owned(),
                        zones: backend::whole_device_zones(),
                    },
                );
                assert(backend::device_views(list@) =~= before.push(list@.last()@));
                assert(list@.last()@ == gpu_device(i as nat, name@));
            }
            i += 1;
        }
        assert(gpus@.take(i as int) =~= gpus@);
        list
    }

    fn set_static(&self, device: &Device, color: Color) -> (r: Result<GpuPlan, SetError>) {
        if !text::same_text(device.id.backend, "gigabyte-gpu") {
            return Err(
                SetError::WrongBackend(
                    backend::wrong_backend(&device.id, "a Gigabyte GPU device"),
                ),
            );
        }
        match index_of_key(device.id.key.as_str()) {
            Some(index) => Ok(GpuPlan { index, packets: painting(color) }),
            None => {
                let mut message = "malformed device key ".to_owned();
                message.append(device.id.key.as_str());
                Err(SetError::MalformedKey(message))
            },
        }
    }
}

/// A key gives back the place that it was made for.
pub proof fn law_gpu_key_reads_back(index: nat)
    requires
        index <= usize::MAX,
    ensures
        key_index(gpu_key(index)) == Some(index),
{
    reveal_strlit("nvapi-");
    assert(gpu_key(index).take(6) =~= "nvapi-"@);
    assert(gpu_key(index).skip(6) =~= text::decimal_text(index));
    text::law_decimal_reads_back(index, usize::MAX as nat);
}

/// The places of the known cards, in ascending order.
pub open spec fn known_places(gpus: Seq<PciIdentifiers>) -> Seq<nat>
    decreases gpus.len(),
{
    if gpus.len() == 0 {
        Seq::empty()
    } else {
        let before = known_places(gpus.drop_last());
        if gpu_name(gpus.last()) is Some {
            before.push((gpus.len() - 1) as nat)
        } else {
            before
        }
    }
}

/// There is one device for each known card, in the order of the driver's enumeration, and its
/// key names the card's place.
pub proof fn law_devices_keep_their_places(gpus: Seq<PciIdentifiers>)
    ensures
        gpu_devices(gpus).len() == known_places(gpus).len(),
        forall|i: int, j: int|
            0 <= i < j < known_places(gpus).len() ==> #[trigger] known_places(gpus)[i]
                < #[trigger] known_places(gpus)[j],
        forall|i: int|
            0 <= i < known_places(gpus).len() ==> {
                &&& #[trigger] known_places(gpus)[i] < gpus.len()
                &&& gpu_name(gpus[known_places(gpus)[i] as int]) is Some
                &&& gpu_devices(gpus)[i] == gpu_device(
                    known_places(gpus)[i],
                    gpu_name(gpus[known_places(gpus)[i] as int]).unwrap(),
                )
            },
        forall|k: int|
            0 <= k < gpus.len() && gpu_name(#[trigger] gpus[k]) is Some ==> known_places(
                gpus,
            ).contains(k as nat),
    decreases gpus.len(),
{
    if gpus.len() > 0 {
        let shorter = gpus.drop_last();
        law_devices_keep_their_places(shorter);
        assert forall|k: int| 0 <= k < gpus.len() && gpu_name(#[trigger] gpus[k]) is Some implies
            known_places(gpus).contains(k as nat) by {
            if k < shorter.len() {
                assert(shorter[k] == gpus[k]);
                let at = choose|at: int|
                    0 <= at < known_places(shorter).len() && known_places(shorter)[at] == k as nat;
                assert(known_places(gpus)[at] == k as nat);
            } else {
                assert(known_places(gpus).last() == k as nat);
            }
        }
        assert forall|i: int| 0 <= i < known_places(gpus).len() implies {
            &&& #[trigger] known_places(gpus)[i] < gpus.len()
            &&& gpu_name(gpus[known_places(gpus)[i] as int]) is Some
            &&& gpu_devices(gpus)[i] == gpu_device(
                known_places(gpus)[i],
                gpu_name(gpus[known_places(gpus)[i] as int]).unwrap(),
            )
        } by {
            if i < known_places(shorter).len() {
                assert(known_places(gpus)[i] == known_places(shorter)[i]);
                assert(shorter[known_places(shorter)[i] as int] == gpus[known_places(
                    shorter,
                )[i] as int]);
            }
        }
    }
}

/// No two devices share a key.
pub proof fn law_gpu_keys_are_distinct(gpus: Seq<PciIdentifiers>, i: int, j: int)
    requires
        0 <= i < j < gpu_devices(gpus).len(),
    ensures
        gpu_devices(gpus)[i].id.key != gpu_devices(gpus)[j].id.key,
{
    law_devices_keep_their_places(gpus);
    let m = known_places(gpus)[i];
    let n = known_places(gpus)[j];
    reveal_strlit("nvapi-");
    if gpu_key(m) == gpu_key(n) {
        assert(gpu_key(m).skip(6) =~= text::decimal_text(m));
        assert(gpu_key(n).skip(6) =~= text::decimal_text(n));
        text::law_decimal_tells_apart(m, n);
    }
}

} // verus!
