//! Gigabyte Aorus motherboards: RGB Fusion 2.0 (ITE USB).
//!
//! The controller takes HID feature reports of exactly 64 bytes. The first byte is always the
//! report id, the second the opcode; what a command does not use stays zero.

use crate::backend::{
    self, Backend, Color, Device, DeviceId, DeviceIdView, DeviceView, SetError,
};
use crate::hid::HidInfo;
use crate::text;
use crate::wire;
use vstd::prelude::*;

verus! {

pub const ITE_VID: u16 = 0x048D;

pub const FUSION2_USAGE_PAGE: u16 = 0xFF89;

pub const FUSION2_USAGE: u16 = 0x00CC;

/// The length of every packet.
pub const PACKET_LEN: usize = 64;

/// The first byte of every packet.
pub const REPORT_ID: u8 = 0xCC;

/// The opcode of an effect packet; with a zone mask it addresses all zones.
pub const OP_EFFECT_HEADER_BASE: u8 = 0x20;

pub const OP_APPLY: u8 = 0x28;

pub const OP_FREEZE_HW_EFFECTS: u8 = 0x32;

pub const OP_SET_LED_COUNT: u8 = 0x34;

pub const OP_LAMP_ARRAY: u8 = 0x48;

pub const EFFECT_TYPE_STATIC: u8 = 0x01;

pub const FULL_BRIGHTNESS: u8 = 0xFF;

/// The LEDs painted per addressable header: the smallest length that the firmware supports.
pub const DEFAULT_LEDS_PER_HEADER: usize = 32;

/// The most LEDs that one strip packet carries.
pub const LEDS_PER_PACKET: usize = 19;

/// The mask that takes the firmware's effects off every addressable header. The bits mark the
/// purpose of a zone; bit 0x04 is not used by the firmware.
pub const ARGB_FREEZE_MASK: u8 = 0x1B;

/// How long to wait after the firmware's effects were taken off, in milliseconds.
pub const FREEZE_PAUSE_MS: u64 = 50;

/// The product that has three more zones than the others.
pub const WIDE_PID: u16 = 0x5711;

/// The USB products that this backend knows.
pub open spec fn known_product(pid: u16) -> bool {
    pid == 0x8297 || pid == 0x8950 || pid == 0x5702 || pid == 0x5711
}

/// The header bytes of the addressable strips.
pub open spec fn argb_headers() -> Seq<u8> {
    seq![0x58u8, 0x59u8, 0x62u8, 0x63u8]
}

// ---------------------------------------------------------------------------
// Discovery
// ---------------------------------------------------------------------------

/// The collection is the LED control of a controller that this backend knows.
pub open spec fn is_fusion2(info: HidInfo) -> bool {
    &&& info.vendor_id == ITE_VID
    &&& known_product(info.product_id)
    &&& info.usage_page == FUSION2_USAGE_PAGE
    &&& info.usage == FUSION2_USAGE
}

/// The name of a device.
pub open spec fn mobo_name(info: HidInfo) -> Seq<char> {
    "Gigabyte RGB Fusion 2.0 (ITE "@ + text::hex_text(info.vendor_id as nat, 4, false) + ":"@
        + text::hex_text(info.product_id as nat, 4, false) + ")"@
}

/// The device behind a collection.
pub open spec fn mobo_device(info: HidInfo) -> DeviceView {
    DeviceView {
        id: DeviceIdView { backend: "gigabyte-mobo"@, key: info.path@ },
        vendor: "Gigabyte"@,
        name: mobo_name(info),
        zones: backend::whole_device(),
    }
}

/// The devices among the collections, in their order.
pub open spec fn mobo_devices(found: Seq<HidInfo>) -> Seq<DeviceView>
    decreases found.len(),
{
    if found.len() == 0 {
        Seq::empty()
    } else {
        let before = mobo_devices(found.drop_last());
        if is_fusion2(found.last()) {
            before.push(mobo_device(found.last()))
        } else {
            before
        }
    }
}

// ---------------------------------------------------------------------------
// Packets
// ---------------------------------------------------------------------------

/// A short packet: the opcode and two bytes.
pub open spec fn short_packet(op: u8, a: u8, b: u8) -> Seq<u8> {
    Seq::new(
        64,
        |i: int|
            if i == 0 {
                REPORT_ID
            } else if i == 1 {
                op
            } else if i == 2 {
                a
            } else if i == 3 {
                b
            } else {
                0u8
            },
    )
}

/// The mask that selects all zones of a product.
pub open spec fn zone_mask(pid: u16) -> nat {
    if pid == WIDE_PID {
        0x07FF
    } else {
        0x00FF
    }
}

/// The effect packet that gives every onboard zone the same static color: the zone mask in
/// bytes 2 to 5, the effect in byte 11, the brightness in byte 12, the color as blue, green,
/// red from byte 14 on.
pub open spec fn effect_packet(pid: u16, color: Color) -> Seq<u8> {
    Seq::new(
        64,
        |i: int|
            if i == 0 {
                REPORT_ID
            } else if i == 1 {
                OP_EFFECT_HEADER_BASE
            } else if 2 <= i < 6 {
                wire::le_bytes(zone_mask(pid), 4)[i - 2]
            } else if i == 11 {
                EFFECT_TYPE_STATIC
            } else if i == 12 {
                FULL_BRIGHTNESS
            } else if i == 14 {
                color.b
            } else if i == 15 {
                color.g
            } else if i == 16 {
                color.r
            } else {
                0u8
            },
    )
}

/// The packet that commits an effect.
pub open spec fn apply_packet(pid: u16) -> Seq<u8> {
    short_packet(
        OP_APPLY,
        0xFF,
        if pid == WIDE_PID {
            0x07
        } else {
            0x00
        },
    )
}

/// The byte of a color at a place within a triplet of a strip: green, red, blue.
pub open spec fn grb_byte(color: Color, place: int) -> u8 {
    if place == 0 {
        color.g
    } else if place == 1 {
        color.r
    } else {
        color.b
    }
}

/// A strip packet: `count` LEDs of one color, from LED `first` on. It names the byte offset of
/// the first LED and the number of bytes that follow.
pub open spec fn strip_packet(header: u8, color: Color, first: nat, count: nat) -> Seq<u8> {
    Seq::new(
        64,
        |i: int|
            if i == 0 {
                REPORT_ID
            } else if i == 1 {
                header
            } else if 2 <= i < 4 {
                wire::le_bytes((3 * first) % 0x1_0000, 2)[i - 2]
            } else if i == 4 {
                (3 * count) as u8
            } else if 5 <= i < 5 + 3 * count {
                grb_byte(color, (i - 5) % 3)
            } else {
                0u8
            },
    )
}

/// How many LEDs the next strip packet carries when `left` are to be painted.
pub open spec fn leds_in_packet(left: nat) -> nat {
    if left < LEDS_PER_PACKET {
        left
    } else {
        LEDS_PER_PACKET as nat
    }
}

/// The strip packets that paint the LEDs from `sent` up to `led_count`.
pub open spec fn strip_packets(header: u8, color: Color, sent: nat, led_count: nat) -> Seq<Seq<u8>>
    decreases led_count - sent,
{
    if sent >= led_count {
        Seq::empty()
    } else {
        let n = leds_in_packet((led_count - sent) as nat);
        seq![strip_packet(header, color, sent, n)] + strip_packets(
            header,
            color,
            sent + n,
            led_count,
        )
    }
}

/// One step of a plan.
#[derive(Debug, Clone, Copy)]
pub enum HidStep {
    /// Send a feature report.
    Report([u8; 64]),
    /// Wait for a number of milliseconds.
    Pause(u64),
}

/// A `HidStep` as mathematical values.
pub enum HidStepView {
    Report(Seq<u8>),
    Pause(nat),
}

impl View for HidStep {
    type V = HidStepView;

    open spec fn view(&self) -> HidStepView {
        match *self {
            HidStep::Report(packet) => HidStepView::Report(packet@),
            HidStep::Pause(ms) => HidStepView::Pause(ms as nat),
        }
    }
}

/// The steps of a list, as mathematical values.
pub open spec fn step_views(list: Seq<HidStep>) -> Seq<HidStepView> {
    list.map_values(|s: HidStep| s@)
}

/// Packets as steps.
pub open spec fn reports(packets: Seq<Seq<u8>>) -> Seq<HidStepView> {
    packets.map_values(|p: Seq<u8>| HidStepView::Report(p))
}

/// The steps that paint the first `n` addressable headers.
pub open spec fn strips_steps(color: Color, n: nat) -> Seq<HidStepView>
    decreases n,
{
    if n == 0 {
        Seq::empty()
    } else {
        strips_steps(color, (n - 1) as nat) + reports(
            strip_packets(
                argb_headers()[n - 1],
                color,
                0,
                DEFAULT_LEDS_PER_HEADER as nat,
            ),
        )
    }
}

/// The steps that paint everything one color: take control from the LampArray driver, give the
/// onboard zones a static effect and commit it, take the firmware's effects off the
/// addressable headers and wait, set the strip length, then paint every header.
pub open spec fn paint_steps(pid: u16, color: Color) -> Seq<HidStepView> {
    seq![
        HidStepView::Report(short_packet(OP_LAMP_ARRAY, 0, 0)),
        HidStepView::Report(effect_packet(pid, color)),
        HidStepView::Report(apply_packet(pid)),
        HidStepView::Report(short_packet(OP_FREEZE_HW_EFFECTS, ARGB_FREEZE_MASK, 0)),
        HidStepView::Pause(FREEZE_PAUSE_MS as nat),
        HidStepView::Report(short_packet(OP_SET_LED_COUNT, 0, 0)),
    ] + strips_steps(color, 4)
}

/// A short packet: the opcode and two bytes, the rest zero.
pub fn send_short(op: u8, a: u8, b: u8) -> (packet: [u8; 64])
    ensures
        packet@ == short_packet(op, a, b),
{
    let mut buf: [u8; 64] = [0u8; 64];
    buf[0] = REPORT_ID;
    buf[1] = op;
    buf[2] = a;
    buf[3] = b;
    assert(buf@ =~= short_packet(op, a, b));
    buf
}

/// The effect packet that paints every onboard zone the same static color.
pub fn send_effect_all(pid: u16, color: Color) -> (packet: [u8; 64])
    ensures
        packet@ == effect_packet(pid, color),
{
    let mut buf: [u8; 64] = [0u8; 64];
    buf[0] = REPORT_ID;
    buf[1] = OP_EFFECT_HEADER_BASE;
    buf[2] = 0xFF;
    buf[3] = if pid == WIDE_PID {
        0x07
    } else {
        0x00
    };
    buf[11] = EFFECT_TYPE_STATIC;
    buf[12] = FULL_BRIGHTNESS;
    buf[14] = color.b;
    buf[15] = color.g;
    buf[16] = color.r;
    proof {
        reveal_with_fuel(wire::le_bytes, 5);
        wire::lemma_le_bytes_len(zone_mask(pid), 4);
    }
    assert(buf@ =~= effect_packet(pid, color));
    buf
}

/// The packet that commits an effect.
pub fn send_apply(pid: u16) -> (packet: [u8; 64])
    ensures
        packet@ == apply_packet(pid),
{
    let b: u8 = if pid == WIDE_PID {
        0x07
    } else {
        0x00
    };
    send_short(OP_APPLY, 0xFF, b)
}

/// One strip packet.
fn strip_report(header: u8, color: Color, first: usize, count: usize) -> (packet: [u8; 64])
    requires
        1 <= count <= LEDS_PER_PACKET,
        3 * first <= usize::MAX,
    ensures
        packet@ == strip_packet(header, color, first as nat, count as nat),
{
    let mut buf: [u8; 64] = [0u8; 64];
    buf[0] = REPORT_ID;
    buf[1] = header;
    let offset: usize = (first * 3) % 0x1_0000;
    buf[2] = (offset % 256) as u8;
    buf[3] = (offset / 256) as u8;
    buf[4] = (count * 3) as u8;
    let mut i: usize = 0;
    proof {
        reveal_with_fuel(wire::le_bytes, 3);
        wire::lemma_le_bytes_len(offset as nat, 2);
    }
    let ghost full = strip_packet(header, color, first as nat, count as nat);
    while i < count
        invariant
            i <= count <= LEDS_PER_PACKET,
            full == strip_packet(header, color, first as nat, count as nat),
            forall|k: int| 0 <= k < 5 + 3 * i ==> buf@[k] == #[trigger] full[k],
            forall|k: int| 5 + 3 * i <= k < 64 ==> #[trigger] buf@[k] == 0,
        decreases count - i,
    {
        let off: usize = 5 + i * 3;
        buf[off] = color.g;
        buf[off + 1] = color.r;
        buf[off + 2] = color.b;
        i += 1;
    }
    assert(buf@ =~= full);
    buf
}

/// The packets that paint `led_count` LEDs of one header one color, up to 19 LEDs in each. The
/// controller drives the strip once it has the last one.
pub fn send_strip_uniform(header: u8, color: Color, led_count: usize) -> (packets: Vec<[u8; 64]>)
    requires
        3 * led_count <= usize::MAX,
    ensures
        packets@.map_values(|p: [u8; 64]| p@) == strip_packets(header, color, 0, led_count as nat),
{
    let mut packets: Vec<[u8; 64]> = Vec::new();
    let mut sent: usize = 0;
    let ghost all = strip_packets(header, color, 0, led_count as nat);
    assert(packets@.map_values(|p: [u8; 64]| p@) + all =~= all);
    while sent < led_count
        invariant
            sent <= led_count,
            3 * led_count <= usize::MAX,
            packets@.map_values(|p: [u8; 64]| p@) + strip_packets(
                header,
                color,
                sent as nat,
                led_count as nat,
            ) == all,
        decreases led_count - sent,
    {
        let left: usize = led_count - sent;
        let n: usize = if left < LEDS_PER_PACKET {
            left
        } else {
            LEDS_PER_PACKET
        };
        let packet = strip_report(header, color, sent, n);
        let ghost before = packets@.map_values(|p: [u8; 64]| p@);
        packets.push(packet);
        assert(packets@.map_values(|p: [u8; 64]| p@) =~= before.push(packet@));
        assert(packets@.map_values(|p: [u8; 64]| p@) + strip_packets(
            header,
            color,
            (sent + n) as nat,
            led_count as nat,
        ) =~= all);
        sent += n;
    }
    assert(packets@.map_values(|p: [u8; 64]| p@) =~= all);
    packets
}

// ---------------------------------------------------------------------------
// Paths and payloads
// ---------------------------------------------------------------------------

/// The product id in a Windows HID device path: the hexadecimal digits right after the first
/// `PID_`, in capitals or not; zero where there is none that fits in 16 bits.
pub open spec fn path_pid(path: Seq<char>) -> nat {
    let upper = path.map_values(|c: char| text::ascii_upper(c));
    match text::first_fragment(upper, "PID_"@, 0) {
        None => 0,
        Some(at) => {
            let digits = upper.subrange(at + 4, text::hex_run_end(upper, at + 4));
            match text::unsigned_number(digits, 16, 0xFFFF) {
                Some(pid) => pid,
                None => 0,
            }
        },
    }
}

/// The product id in a Windows HID device path. Falls back to zero if the path has no product
/// token, which stands for one of the common products.
pub fn pid_from_path(path: &str) -> (pid: u16)
    ensures
        pid as nat == path_pid(path@),
{
    let chars = text::chars_of(path);
    let mut upper: Vec<char> = Vec::new();
    let mut i: usize = 0;
    while i < chars.len()
        invariant
            i <= chars@.len(),
            upper@ == chars@.map_values(|c: char| text::ascii_upper(c)).take(i as int),
        decreases chars@.len() - i,
    {
        upper.push(text::to_ascii_upper(chars[i]));
        i += 1;
        assert(upper@ =~= chars@.map_values(|c: char| text::ascii_upper(c)).take(i as int));
    }
    assert(upper@ =~= path@.map_values(|c: char| text::ascii_upper(c)));
    let token = text::chars_of("PID_");
    proof {
        reveal_strlit("PID_");
    }
    match text::find_fragment(&upper, &token) {
        None => 0,
        Some(at) => {
            let end: usize = text::find_hex_run_end(&upper, at + 4);
            match text::read_unsigned(&upper, at + 4, end, 16, 0xFFFF) {
                Some(pid) => pid as u16,
                None => 0,
            }
        },
    }
}

/// A payload behind the report id, the rest zero.
pub open spec fn raw_packet(payload: Seq<u8>) -> Seq<u8> {
    Seq::new(
        64,
        |i: int|
            if i == 0 {
                REPORT_ID
            } else if i <= payload.len() {
                payload[i - 1]
            } else {
                0u8
            },
    )
}

/// What is said of a payload that does not fit.
pub open spec fn too_long_text(len: nat) -> Seq<char> {
    "payload too long: "@ + text::decimal_text(len) + " bytes, max "@ + text::decimal_text(63)
}

/// Frames a payload given by the user; refuses one that does not fit behind the report id.
pub fn raw_write(payload: &[u8]) -> (r: Result<[u8; 64], String>)
    ensures
        r is Ok <==> payload@.len() <= 63,
        r matches Ok(packet) ==> packet@ == raw_packet(payload@),
        r matches Err(message) ==> message@ == too_long_text(payload@.len()),
{
    if payload.len() > PACKET_LEN - 1 {
        let mut message = "payload too long: ".to_owned();
        text::push_decimal(&mut message, payload.len() as u64);
        message.append(" bytes, max ");
        text::push_decimal(&mut message, 63);
        return Err(message);
    }
    let mut buf: [u8; 64] = [0u8; 64];
    buf[0] = REPORT_ID;
    let mut i: usize = 0;
    while i < payload.len()
        invariant
            i <= payload@.len() <= 63,
            forall|k: int| 0 <= k <= i ==> buf@[k] == #[trigger] raw_packet(payload@)[k],
            forall|k: int| i < k < 64 ==> #[trigger] buf@[k] == 0,
        decreases payload@.len() - i,
    {
        buf[i + 1] = payload[i];
        i += 1;
    }
    assert(buf@ =~= raw_packet(payload@));
    Ok(buf)
}

/// What a report is called in messages.
pub open spec fn label_of(packet: Seq<u8>) -> Seq<char> {
    if packet[1] == OP_EFFECT_HEADER_BASE {
        "send effect packet"@
    } else if argb_headers().contains(packet[1]) {
        "strip write header=0x"@ + text::hex_text(packet[1] as nat, 2, false) + " off="@
            + text::decimal_text(wire::le_value(packet.subrange(2, 4)))
    } else {
        "send_feature_report op=0x"@ + text::hex_text(packet[1] as nat, 2, false)
    }
}

/// What a report is called in messages.
pub fn report_label(packet: &[u8; 64]) -> (label: String)
    ensures
        label@ == label_of(packet@),
{
    let op: u8 = packet[1];
    if op == OP_EFFECT_HEADER_BASE {
        return "send effect packet".to_owned();
    }
    proof {
        let headers = argb_headers();
        assert(headers[0] == 0x58 && headers[1] == 0x59 && headers[2] == 0x62 && headers[3] == 0x63);
    }
    if op == 0x58 || op == 0x59 || op == 0x62 || op == 0x63 {
        let mut label = "strip write header=0x".to_owned();
        text::push_hex(&mut label, op as u32, 2, false);
        label.append(" off=");
        let offset: u64 = packet[2] as u64 + 256 * packet[3] as u64;
        proof {
            reveal_with_fuel(wire::le_value, 3);
            let two = packet@.subrange(2, 4);
            assert(two.skip(1) =~= seq![packet@[3]]);
            assert(two.skip(1).skip(1) =~= Seq::empty());
        }
        text::push_decimal(&mut label, offset);
        label
    } else {
        let mut label = "send_feature_report op=0x".to_owned();
        text::push_hex(&mut label, op as u32, 2, false);
        label
    }
}

// ---------------------------------------------------------------------------
// The backend
// ---------------------------------------------------------------------------

/// The backend for these motherboards.
pub struct GigabyteMobo;

/// What has to be sent to a device: the path to open and the steps to take, in order, up to
/// the first that fails.
#[derive(Debug)]
pub struct MoboPlan {
    pub path: String,
    pub steps: Vec<HidStep>,
}

/// A `MoboPlan` as mathematical values.
pub struct MoboPlanView {
    pub path: Seq<char>,
    pub steps: Seq<HidStepView>,
}

impl View for MoboPlan {
    type V = MoboPlanView;

    open spec fn view(&self) -> MoboPlanView {
        MoboPlanView { path: self.path@, steps: step_views(self.steps@) }
    }
}

impl GigabyteMobo {
    pub fn new() -> (b: Self)
        ensures
            b.label() == "gigabyte-mobo"@,
    {
        GigabyteMobo
    }
}

/// Appends packets as steps.
fn push_reports(steps: &mut Vec<HidStep>, packets: &Vec<[u8; 64]>)
    ensures
        step_views(final(steps)@) == step_views(old(steps)@) + reports(
            packets@.map_values(|p: [u8; 64]| p@),
        ),
{
    let ghost all = reports(packets@.map_values(|p: [u8; 64]| p@));
    let ghost start = step_views(steps@);
    let mut i: usize = 0;
    assert(start + all.take(0) =~= start);
    while i < packets.len()
        invariant
            i <= packets@.len(),
            all == reports(packets@.map_values(|p: [u8; 64]| p@)),
            step_views(steps@) == start + all.take(i as int),
        decreases packets@.len() - i,
    {
        let ghost before = step_views(steps@);
        steps.push(HidStep::Report(packets[i]));
        assert(step_views(steps@) =~= before.push(HidStepView::Report(packets@[i as int]@)));
        assert(before.push(all[i as int]) =~= start + all.take(i + 1));
        i += 1;
    }
    assert(all.take(i as int) =~= all);
}

/// The steps that paint everything one color.
pub fn painting(pid: u16, color: Color) -> (steps: Vec<HidStep>)
    ensures
        step_views(steps@) == paint_steps(pid, color),
{
    let mut steps: Vec<HidStep> = Vec::new();
    steps.push(HidStep::Report(send_short(OP_LAMP_ARRAY, 0x00, 0x00)));
    steps.push(HidStep::Report(send_effect_all(pid, color)));
    steps.push(HidStep::Report(send_apply(pid)));
    steps.push(HidStep::Report(send_short(OP_FREEZE_HW_EFFECTS, ARGB_FREEZE_MASK, 0x00)));
    steps.push(HidStep::Pause(FREEZE_PAUSE_MS));
    steps.push(HidStep::Report(send_short(OP_SET_LED_COUNT, 0x00, 0x00)));
    let ghost head = step_views(steps@);
    assert(head + strips_steps(color, 4) =~= paint_steps(pid, color));
    let headers: [u8; 4] = [0x58, 0x59, 0x62, 0x63];
    assert(headers@ =~= argb_headers());
    let mut n: usize = 0;
    assert(head + strips_steps(color, 0) =~= head);
    while n < 4
        invariant
            n <= 4,
            headers@ == argb_headers(),
            step_views(steps@) == head + strips_steps(color, n as nat),
        decreases 4 - n,
    {
        let packets = send_strip_uniform(headers[n], color, DEFAULT_LEDS_PER_HEADER);
        push_reports(&mut steps, &packets);
        n += 1;
        assert(step_views(steps@) =~= head + strips_steps(color, n as nat));
    }
    steps
}

impl Backend for GigabyteMobo {
    type Found = Vec<HidInfo>;

    type Plan = MoboPlan;

    open spec fn label(&self) -> Seq<char> {
        "gigabyte-mobo"@
    }

    open spec fn kind(&self) -> Seq<char> {
        "a Gigabyte RGB Fusion 2 device"@
    }

    open spec fn devices_in(&self, found: Vec<HidInfo>) -> Seq<DeviceView> {
        mobo_devices(found@)
    }

    open spec fn plan_for(&self, key: Seq<char>, color: Color) -> Option<MoboPlanView> {
        Some(MoboPlanView { path: key, steps: paint_steps(path_pid(key) as u16, color) })
    }

    open spec fn malformed_text(&self, key: Seq<char>) -> Seq<char> {
        Seq::empty()
    }

    proof fn law_enumerated_devices_can_be_painted(&self, found: Vec<HidInfo>, color: Color, i: int) {
        lemma_mobo_labels(found@, i);
    }

    fn name(&self) -> (n: &'static str) {
        "gigabyte-mobo"
    }

    fn enumerate(&self, found: &Vec<HidInfo>) -> (list: Vec<Device>) {
        let mut list: Vec<Device> = Vec::new();
        let mut i: usize = 0;
        assert(backend::device_views(list@) =~= mobo_devices(found@.take(0)));
        while i < found.len()
            invariant
                i <= found@.len(),
                backend::device_views(list@) == mobo_devices(found@.take(i as int)),
            decreases found@.len() - i,
        {
            let info = &found[i];
            let pid: u16 = info.product_id;
            assert(found@.take(i + 1).drop_last() =~= found@.take(i as int));
            if info.vendor_id == ITE_VID && (pid == 0x8297 || pid == 0x8950 || pid == 0x5702 || pid
                == 0x5711) && info.usage_page == FUSION2_USAGE_PAGE && info.usage == FUSION2_USAGE {
                let mut name = "Gigabyte RGB Fusion 2.0 (ITE ".to_owned();
                text::push_hex(&mut name, info.vendor_id as u32, 4, false);
                name.append(":");
                text::push_hex(&mut name, pid as u32, 4, false);
                name.append(")");
                let ghost before = backend::device_views(list@);
                list.push(
                    Device {
                        id: DeviceId { backend: "gigabyte-mobo", key: info.path.clone() },
                        vendor: "Gigabyte",
                        name,
                        zones: backend::whole_device_zones(),
                    },
                );
                assert(backend::device_views(list@) =~= before.push(list@.last()@));
                assert(list@.last()@ == mobo_device(found@[i as int]));
            }
            i += 1;
        }
        assert(found@.take(i as int) =~= found@);
        list
    }

    fn set_static(&self, device: &Device, color: Color) -> (r: Result<MoboPlan, SetError>) {
        if !text::same_text(device.id.backend, "gigabyte-mobo") {
            return Err(
                SetError::WrongBackend(
                    backend::wrong_backend(&device.id, "a Gigabyte RGB Fusion 2 device"),
                ),
            );
        }
        let pid: u16 = pid_from_path(device.id.key.as_str());
        Ok(MoboPlan { path: device.id.key.clone(), steps: painting(pid, color) })
    }
}

proof fn lemma_mobo_labels(found: Seq<HidInfo>, i: int)
    requires
        0 <= i < mobo_devices(found).len(),
    ensures
        mobo_devices(found)[i].id.backend == "gigabyte-mobo"@,
    decreases found.len(),
{
    if found.len() > 0 && i < mobo_devices(found.drop_last()).len() {
        lemma_mobo_labels(found.drop_last(), i);
    }
}

} // verus!
