//! Which GPUs are listed, how packets reach a card, and what a painted card shows.

use crate::backend::{Backend, Color, DeviceIdView, DeviceView, ZoneView};
use crate::backends::gigabyte_gpu::{self, GigabyteGpu};
use crate::backends::gpu_session::{self, Driver, GpuZones, I2cWriteView};
use crate::nvapi::PciIdentifiers;
use crate::text;
use vstd::prelude::*;

verus! {

// ---------------------------------------------------------------------------
// Discovery
// ---------------------------------------------------------------------------

/// What a card is called. Its identifiers hold the device in the high half and the vendor in the
/// low half.
pub open spec fn known_card(ids: PciIdentifiers) -> Option<Seq<char>> {
    if ids.device_id != 0x2684_10DE {
        None
    } else if ids.subsystem_id == 0x40BF_1458 {
        Some("Gigabyte GeForce RTX 4090 GAMING OC"@)
    } else if ids.subsystem_id == 0x21D1_1458 {
        Some("AORUS GeForce RTX 4090 MASTER"@)
    } else if ids.subsystem_id == 0x40BD_1458 {
        Some("Gigabyte GeForce RTX 4090 AERO OC"@)
    } else {
        None
    }
}

/// One more GPU behind others is one more device exactly if it is one of the three known cards,
/// with its place in the driver's order in its key, and leaves the devices before it as they
/// are. Only device and subsystem decide. No GPU is no device.
pub proof fn law_one_more_gpu(gpus: Seq<PciIdentifiers>, ids: PciIdentifiers)
    ensures
        gigabyte_gpu::gpu_devices(Seq::empty()) == Seq::<DeviceView>::empty(),
        gigabyte_gpu::gpu_devices(gpus.push(ids)) == match known_card(ids) {
            Some(name) => gigabyte_gpu::gpu_devices(gpus).push(
                DeviceView {
                    id: DeviceIdView {
                        backend: "gigabyte-gpu"@,
                        key: "nvapi-"@ + text::decimal_text(gpus.len()),
                    },
                    vendor: "Gigabyte"@,
                    name,
                    zones: seq![ZoneView { name: "all"@, led_count: 0 }],
                },
            ),
            None => gigabyte_gpu::gpu_devices(gpus),
        },
{
    assert(gpus.push(ids).drop_last() =~= gpus);
    assert(gigabyte_gpu::gpu_name(ids) == known_card(ids));
}

/// The driver may be missing; then nothing is listed. A listed card is painted at the place that
/// its key names.
pub proof fn law_listed_card_is_painted_at_its_place(
    b: &GigabyteGpu,
    index: nat,
    color: Color,
    z: GpuZones,
)
    requires
        index <= usize::MAX,
    ensures
        b.devices_in(None).len() == 0,
        ({
            let key = "nvapi-"@ + text::decimal_text(index);
            &&& b.plan_for(key, color) is Some
            &&& b.plan_for(key, color).unwrap().index == index
            &&& forall|zone: nat|
                zone < 4 ==> #[trigger] shows(
                    panel_after_all(z, b.plan_for(key, color).unwrap().packets),
                    zone,
                    color,
                )
        }),
{
    gigabyte_gpu::law_gpu_key_reads_back(index);
    law_painting_shows_the_color(z, color);
}

/// Every key that stands for a place, however it is written, is painted there.
pub proof fn law_good_keys_are_painted(
    b: &GigabyteGpu,
    key: Seq<char>,
    color: Color,
    z: GpuZones,
    zone: nat,
)
    requires
        zone < 4,
    ensures
        b.plan_for(key, color) is Some <==> gigabyte_gpu::key_index(key) is Some,
        b.plan_for(key, color) matches Some(plan) ==> {
            &&& gigabyte_gpu::key_index(key) == Some(plan.index)
            &&& shows(panel_after_all(z, plan.packets), zone, color)
        },
{
    law_painting_shows_the_color(z, color);
}

/// What stands behind the first six characters, without one plus sign in front.
pub open spec fn behind_plus(key: Seq<char>) -> Seq<char> {
    if key[6] == '+' {
        key.skip(7)
    } else {
        key.skip(6)
    }
}

/// A key stands for a place exactly if it is `nvapi-` and a decimal number that a place can be,
/// with a plus sign in front or not; then for that one.
pub proof fn law_other_keys_are_refused(key: Seq<char>)
    ensures
        ({
            let digits = behind_plus(key);
            gigabyte_gpu::key_index(key) == if key.len() > 6 && key.take(6) == "nvapi-"@ && digits.len() > 0
                && (forall|k: int|
                0 <= k < digits.len() ==> text::digit_value(#[trigger] digits[k]) < 10)
                && text::number_value(digits, 10) <= usize::MAX {
                Some(text::number_value(digits, 10))
            } else {
                None
            }
        }),
{
    reveal_strlit("nvapi-");
    if key.len() > 6 {
        let rest = key.skip(6);
        assert(rest[0] == key[6]);
        assert(rest.skip(1) =~= key.skip(7));
        assert(behind_plus(key) == text::without_plus(rest));
    }
}

// ---------------------------------------------------------------------------
// What packets do
// ---------------------------------------------------------------------------

/// What a packet of eight bytes does to the zones of a card. Register 0x88 takes mode, speed and
/// brightness of a zone, which is counted from one; 0xB0 the colors of the first two zones; 0xB1
/// that of the third; 0x40 that of the zone it names.
pub open spec fn panel_after(z: GpuZones, p: Seq<u8>) -> GpuZones {
    if p.len() != 8 {
        z
    } else if p[0] == 0x88 {
        GpuZones { modes: z.modes.insert((p[5] - 1) as nat, (p[1], p[2], p[3])), ..z }
    } else if p[0] == 0xB0 && p[1] == 0x01 {
        GpuZones {
            colors: z.colors.insert(0, Color { r: p[2], g: p[3], b: p[4] }).insert(
                1,
                Color { r: p[5], g: p[6], b: p[7] },
            ),
            ..z
        }
    } else if p[0] == 0xB1 && p[1] == 0x01 {
        GpuZones { colors: z.colors.insert(2, Color { r: p[2], g: p[3], b: p[4] }), ..z }
    } else if p[0] == 0x40 {
        GpuZones {
            colors: z.colors.insert((p[4] - 1) as nat, Color { r: p[1], g: p[2], b: p[3] }),
            ..z
        }
    } else {
        z
    }
}

/// What a row of packets does to the zones.
pub open spec fn panel_after_all(z: GpuZones, packets: Seq<Seq<u8>>) -> GpuZones
    decreases packets.len(),
{
    if packets.len() == 0 {
        z
    } else {
        panel_after(panel_after_all(z, packets.drop_last()), packets.last())
    }
}

/// The zone shows the color in the static mode, at normal speed and full brightness.
pub open spec fn shows(z: GpuZones, zone: nat, color: Color) -> bool {
    &&& z.colors.dom().contains(zone)
    &&& z.colors[zone] == color
    &&& z.modes.dom().contains(zone)
    &&& z.modes[zone] == (0x01u8, 0x02u8, 0x63u8)
}

/// The mode packet of a zone sets that zone to the static mode at full brightness, and does
/// nothing else. Its color packet gives the zone the color, and the first two zones theirs
/// together; it changes no other zone and no mode.
pub proof fn law_packets_reach_their_zone(z: GpuZones, zone: nat, c: Color)
    requires
        zone < 255,
    ensures
        panel_after(z, gigabyte_gpu::mode_packet(zone)) == (GpuZones {
            modes: z.modes.insert(zone, (0x01u8, 0x02u8, 0x63u8)),
            ..z
        }),
        panel_after(z, gigabyte_gpu::color_packet(zone, c)) == (GpuZones {
            colors: if zone < 2 {
                z.colors.insert(0, c).insert(1, c)
            } else {
                z.colors.insert(zone, c)
            },
            ..z
        }),
        gigabyte_gpu::mode_packet(zone).len() == 8,
        gigabyte_gpu::mode_packet(zone)[4] == 0,
        gigabyte_gpu::mode_packet(zone)[6] == 0,
        gigabyte_gpu::mode_packet(zone)[7] == 0,
        gigabyte_gpu::color_packet(zone, c).len() == 8,
        forall|i: int|
            zone >= 2 && 5 <= i < 8 ==> #[trigger] gigabyte_gpu::color_packet(zone, c)[i] == 0,
{
}

/// Whatever a card showed before, a painting leaves all four zones showing the color, and any
/// further zone as it was.
pub proof fn law_painting_shows_the_color(z: GpuZones, color: Color)
    ensures
        ({
            let end = panel_after_all(
                z,
                gigabyte_gpu::paint_packets(color, gigabyte_gpu::NUM_ZONES as nat),
            );
            &&& forall|zone: nat| zone < 4 ==> #[trigger] shows(end, zone, color)
            &&& forall|zone: nat|
                zone >= 4 ==> {
                    &&& #[trigger] end.colors.dom().contains(zone) == z.colors.dom().contains(zone)
                    &&& end.colors[zone] == z.colors[zone]
                    &&& end.modes.dom().contains(zone) == z.modes.dom().contains(zone)
                    &&& end.modes[zone] == z.modes[zone]
                }
        }),
{
    lemma_paint_zone(z, color, 1);
    lemma_paint_zone(z, color, 2);
    lemma_paint_zone(z, color, 3);
    lemma_paint_zone(z, color, 4);
    assert(gigabyte_gpu::paint_packets(color, 0) =~= Seq::empty());
}

/// A painting takes two packets for each of the four zones, zone by zone: its mode, then its
/// color.
pub proof fn law_zones_are_painted_in_turn(color: Color, zone: int)
    requires
        0 <= zone < 4,
    ensures
        ({
            let packets = gigabyte_gpu::paint_packets(color, gigabyte_gpu::NUM_ZONES as nat);
            &&& packets.len() == 8
            &&& packets[2 * zone][0] == 0x88
            &&& packets[2 * zone][5] == zone + 1
            &&& packets[2 * zone + 1][0] == if zone < 2 {
                0xB0u8
            } else if zone == 2 {
                0xB1u8
            } else {
                0x40u8
            }
        }),
{
    reveal_with_fuel(gigabyte_gpu::paint_packets, 5);
}

proof fn lemma_paint_zone(z: GpuZones, color: Color, zones: nat)
    requires
        0 < zones <= 4,
    ensures
        panel_after_all(z, gigabyte_gpu::paint_packets(color, zones)) == panel_after(
            panel_after(
                panel_after_all(z, gigabyte_gpu::paint_packets(color, (zones - 1) as nat)),
                gigabyte_gpu::mode_packet((zones - 1) as nat),
            ),
            gigabyte_gpu::color_packet((zones - 1) as nat, color),
        ),
{
    reveal_with_fuel(panel_after_all, 3);
    let before = gigabyte_gpu::paint_packets(color, (zones - 1) as nat);
    let zone = (zones - 1) as nat;
    let one = before.push(gigabyte_gpu::mode_packet(zone));
    let two = one.push(gigabyte_gpu::color_packet(zone, color));
    assert(two.drop_last() =~= one);
    assert(one.drop_last() =~= before);
}

// ---------------------------------------------------------------------------
// How packets get to the card
// ---------------------------------------------------------------------------

/// The port of a write of a packet, counted from the packet's first: port 1, then all ports from
/// 0 on.
pub open spec fn port_of_try(k: int) -> int {
    if k == 0 {
        1
    } else {
        k - 1
    }
}

proof fn lemma_fallback(driver: Driver, log: Seq<I2cWriteView>, packet: Seq<u8>, port: nat)
    requires
        port <= 8,
    ensures
        ({
            let (sent, taken) = gpu_session::fallback_run(driver, log, packet, port);
            let n = log.len() as int;
            &&& n <= sent.len() <= n + 8 - port
            &&& sent.take(n) == log
            &&& forall|i: int|
                n <= i < sent.len() ==> #[trigger] sent[i] == (I2cWriteView {
                    addr: 0x71,
                    port: (port + i - n) as nat,
                    data: packet,
                })
            &&& forall|i: int|
                n <= i < sent.len() - 1 ==> driver(#[trigger] sent.take(i + 1)) != 0
            &&& taken ==> sent.len() > n && driver(sent) == 0
            &&& !taken ==> sent.len() == n + 8 - port && (sent.len() > n ==> driver(sent) != 0)
        }),
    decreases 8 - port,
{
    let n = log.len() as int;
    assert(log.take(n) =~= log);
    if port <= 7 {
        let w = gpu_session::write_to(packet, port);
        let next = log.push(w);
        assert(next.take(n) =~= log);
        if driver(next) != 0 {
            lemma_fallback(driver, next, packet, port + 1);
            let (sent, taken) = gpu_session::fallback_run(driver, next, packet, port + 1);
            assert(sent.take(n) =~= sent.take(n + 1).take(n));
            assert(sent[n] == sent.take(n + 1)[n]);
            assert forall|i: int| n <= i < sent.len() - 1 implies driver(
                #[trigger] sent.take(i + 1),
            ) != 0 by {
                if i == n {
                    assert(sent.take(n + 1) == next);
                }
            }
            if sent.len() == n + 1 {
                assert(sent.take(n + 1) =~= sent);
            }
        }
    }
}

/// A packet is written to the controller at 0x71 on port 1, and as long as that fails, on the
/// ports from 0 to 7 in turn. It ends with the first write that the driver takes, or when all
/// have failed; then the failure is that of the first write.
pub proof fn law_ports_are_tried_in_turn(
    driver: Driver,
    log: Seq<I2cWriteView>,
    packet: Seq<u8>,
)
    ensures
        ({
            let (sent, failed) = gpu_session::packet_run(driver, log, packet);
            let n = log.len() as int;
            &&& n < sent.len() <= n + 9
            &&& sent.take(n) == log
            &&& forall|i: int|
                n <= i < sent.len() ==> #[trigger] sent[i] == (I2cWriteView {
                    addr: 0x71,
                    port: port_of_try(i - n) as nat,
                    data: packet,
                })
            &&& forall|i: int|
                n <= i < sent.len() - 1 ==> driver(#[trigger] sent.take(i + 1)) != 0
            &&& failed is None <==> driver(sent) == 0
            &&& failed matches Some(status) ==> sent.len() == n + 9 && status == driver(
                sent.take(n + 1),
            )
        }),
{
    let n = log.len() as int;
    let first = log.push(gpu_session::write_to(packet, 1));
    assert(first.take(n) =~= log);
    if driver(first) != 0 {
        lemma_fallback(driver, first, packet, 0);
        let (sent, taken) = gpu_session::fallback_run(driver, first, packet, 0);
        assert(sent.take(n) =~= sent.take(n + 1).take(n));
        assert(sent[n] == sent.take(n + 1)[n]);
        assert forall|i: int| n <= i < sent.len() - 1 implies driver(#[trigger] sent.take(i + 1))
            != 0 by {
            if i == n {
                assert(sent.take(n + 1) == first);
            }
        }
    }
}

/// The data of the writes from `from` on that the driver took, in order.
pub open spec fn taken_data(driver: Driver, sent: Seq<I2cWriteView>, from: int) -> Seq<Seq<u8>>
    decreases sent.len() - from,
{
    if from < 0 || from >= sent.len() {
        Seq::empty()
    } else {
        (if driver(sent.take(from + 1)) == 0 {
            seq![sent[from].data]
        } else {
            Seq::empty()
        }) + taken_data(driver, sent, from + 1)
    }
}

proof fn lemma_taken_splits(
    driver: Driver,
    short: Seq<I2cWriteView>,
    long: Seq<I2cWriteView>,
    from: int,
)
    requires
        0 <= from <= short.len() <= long.len(),
        long.take(short.len() as int) == short,
    ensures
        taken_data(driver, long, from) == taken_data(driver, short, from) + taken_data(
            driver,
            long,
            short.len() as int,
        ),
    decreases short.len() - from,
{
    let rest = taken_data(driver, long, short.len() as int);
    if from < short.len() {
        lemma_taken_splits(driver, short, long, from + 1);
        assert(long.take(from + 1) =~= short.take(from + 1));
        assert(long[from] == long.take(short.len() as int)[from]);
        assert(taken_data(driver, long, from) =~= taken_data(driver, short, from) + rest);
    } else {
        assert(taken_data(driver, short, from) + rest =~= rest);
    }
}

/// Of the writes of one packet, the driver took the last or none.
proof fn lemma_one_taken(driver: Driver, sent: Seq<I2cWriteView>, from: int, packet: Seq<u8>)
    requires
        0 <= from < sent.len(),
        forall|i: int| from <= i < sent.len() ==> (#[trigger] sent[i]).data == packet,
        forall|i: int| from <= i < sent.len() - 1 ==> driver(#[trigger] sent.take(i + 1)) != 0,
    ensures
        taken_data(driver, sent, from) == if driver(sent) == 0 {
            seq![packet]
        } else {
            Seq::empty()
        },
    decreases sent.len() - from,
{
    if from == sent.len() - 1 {
        assert(sent.take(from + 1) =~= sent);
        assert(taken_data(driver, sent, from + 1) =~= Seq::empty());
        assert(taken_data(driver, sent, from) =~= if driver(sent) == 0 {
            seq![packet]
        } else {
            Seq::empty()
        });
    } else {
        lemma_one_taken(driver, sent, from + 1, packet);
        assert(driver(sent.take(from + 1)) != 0);
        assert(taken_data(driver, sent, from) =~= taken_data(driver, sent, from + 1));
    }
}

/// What the driver takes are exactly the packets, in order and each once, up to the first that
/// no port takes. All of them are taken exactly when there is no failure.
pub proof fn law_taken_writes_are_the_packets(
    driver: Driver,
    log: Seq<I2cWriteView>,
    packets: Seq<Seq<u8>>,
    at: nat,
)
    requires
        at <= packets.len(),
    ensures
        ({
            let (sent, failed) = gpu_session::packets_run(driver, log, packets, at);
            let taken = taken_data(driver, sent, log.len() as int);
            &&& log.len() <= sent.len()
            &&& sent.take(log.len() as int) == log
            &&& at + taken.len() <= packets.len()
            &&& taken == packets.subrange(at as int, at as int + taken.len())
            &&& failed is None <==> at + taken.len() == packets.len()
            &&& failed matches Some(status) ==> status != 0
        }),
    decreases packets.len() - at,
{
    let n = log.len() as int;
    assert(log.take(n) =~= log);
    if at < packets.len() {
        let packet = packets[at as int];
        let (one, failed) = gpu_session::packet_run(driver, log, packet);
        law_ports_are_tried_in_turn(driver, log, packet);
        lemma_one_taken(driver, one, n, packet);
        if failed is None {
            law_taken_writes_are_the_packets(driver, one, packets, at + 1);
            let (sent, end) = gpu_session::packets_run(driver, one, packets, at + 1);
            lemma_taken_splits(driver, one, sent, n);
            assert(sent.take(n) =~= sent.take(one.len() as int).take(n));
            let later = taken_data(driver, sent, one.len() as int);
            assert(seq![packet] + later =~= packets.subrange(at as int, at + 1int + later.len()));
        } else {
            assert(driver(one) != 0);
            assert(driver(one.take(n + 1)) != 0);
            assert(packets.subrange(at as int, at as int) =~= Seq::empty());
        }
    } else {
        assert(packets.subrange(at as int, at as int) =~= Seq::empty());
    }
}

/// A painting that does not fail leaves all four zones of the card showing the color, on
/// whichever ports the driver took its packets.
pub proof fn law_sent_painting_shows_the_color(driver: Driver, z: GpuZones, color: Color)
    requires
        gpu_session::packets_run(
            driver,
            Seq::empty(),
            gigabyte_gpu::paint_packets(color, gigabyte_gpu::NUM_ZONES as nat),
            0,
        ).1 is None,
    ensures
        ({
            let sent = gpu_session::packets_run(
                driver,
                Seq::empty(),
                gigabyte_gpu::paint_packets(color, gigabyte_gpu::NUM_ZONES as nat),
                0,
            ).0;
            forall|zone: nat|
                zone < 4 ==> #[trigger] shows(
                    panel_after_all(z, taken_data(driver, sent, 0)),
                    zone,
                    color,
                )
        }),
{
    let packets = gigabyte_gpu::paint_packets(color, gigabyte_gpu::NUM_ZONES as nat);
    law_taken_writes_are_the_packets(driver, Seq::empty(), packets, 0);
    assert(packets.subrange(0, packets.len() as int) =~= packets);
    law_painting_shows_the_color(z, color);
}

} // verus!
