//! Writing packets to the controller of a GPU, and what they do to its zones.
//!
//! The controller normally is on one I2C port. Where a write to that port fails, the other
//! ports are tried in turn.

use crate::backend::Color;
use crate::backends::gigabyte_gpu;
use vstd::prelude::*;

verus! {

/// One write of eight bytes.
#[derive(Debug, Clone, Copy)]
pub struct I2cWrite {
    pub addr: u8,
    pub port: u8,
    pub data: [u8; 8],
}

/// An `I2cWrite` as mathematical values.
pub struct I2cWriteView {
    pub addr: u8,
    pub port: nat,
    pub data: Seq<u8>,
}

impl View for I2cWrite {
    type V = I2cWriteView;

    open spec fn view(&self) -> I2cWriteView {
        I2cWriteView { addr: self.addr, port: self.port as nat, data: self.data@ }
    }
}

// ---------------------------------------------------------------------------
// The procedure
// ---------------------------------------------------------------------------

/// The driver: the status it returns for the last of the writes so far. Zero is success.
pub type Driver = spec_fn(Seq<I2cWriteView>) -> i32;

/// The write of a packet to a port.
pub open spec fn write_to(packet: Seq<u8>, port: nat) -> I2cWriteView {
    I2cWriteView { addr: gigabyte_gpu::I2C_ADDR, port, data: packet }
}

/// Tries a packet on the ports from `port` on: whether one of them took it.
pub open spec fn fallback_run(
    driver: Driver,
    log: Seq<I2cWriteView>,
    packet: Seq<u8>,
    port: nat,
) -> (Seq<I2cWriteView>, bool)
    decreases gigabyte_gpu::LAST_PORT + 1 - port,
{
    if port > gigabyte_gpu::LAST_PORT {
        (log, false)
    } else {
        let sent = log.push(write_to(packet, port));
        if driver(sent) == 0 {
            (sent, true)
        } else {
            fallback_run(driver, sent, packet, port + 1)
        }
    }
}

/// Writes a packet to the usual port and, where that fails, to the first of all ports that
/// takes it. Where none does, the failure is that of the usual port.
pub open spec fn packet_run(driver: Driver, log: Seq<I2cWriteView>, packet: Seq<u8>) -> (
    Seq<I2cWriteView>,
    Option<i32>,
) {
    let sent = log.push(write_to(packet, gigabyte_gpu::I2C_PORT as nat));
    let status = driver(sent);
    if status == 0 {
        (sent, None)
    } else {
        let (tried, taken) = fallback_run(driver, sent, packet, 0);
        if taken {
            (tried, None)
        } else {
            (tried, Some(status))
        }
    }
}

/// Writes the packets from place `at` on, up to the first that no port takes: the status of
/// that failure, if there was one.
pub open spec fn packets_run(
    driver: Driver,
    log: Seq<I2cWriteView>,
    packets: Seq<Seq<u8>>,
    at: nat,
) -> (Seq<I2cWriteView>, Option<i32>)
    decreases packets.len() - at,
{
    if at >= packets.len() {
        (log, None)
    } else {
        let (sent, failed) = packet_run(driver, log, packets[at as int]);
        match failed {
            Some(status) => (sent, Some(status)),
            None => packets_run(driver, sent, packets, at + 1),
        }
    }
}

// ---------------------------------------------------------------------------
// The session
// ---------------------------------------------------------------------------

/// The writing of packets, as far as it has come.
pub struct GpuSession {
    packets: Vec<[u8; 8]>,
    at: usize,
    fallback: Option<u8>,
    first_status: i32,
    failed: Option<i32>,
}

/// A `GpuSession` as mathematical values. `fallback` is the port that is tried after the usual
/// one failed.
pub struct GpuState {
    pub packets: Seq<Seq<u8>>,
    pub at: nat,
    pub fallback: Option<nat>,
    pub first_status: i32,
    pub failed: Option<i32>,
}

impl View for GpuSession {
    type V = GpuState;

    closed spec fn view(&self) -> GpuState {
        GpuState {
            packets: gigabyte_gpu::packet_views(self.packets@),
            at: self.at as nat,
            fallback: match self.fallback {
                Some(port) => Some(port as nat),
                None => None,
            },
            first_status: self.first_status,
            failed: self.failed,
        }
    }
}

impl GpuState {
    /// The counters are within their bounds.
    pub open spec fn wf(self) -> bool {
        &&& self.at <= self.packets.len()
        &&& self.fallback matches Some(port) ==> port <= gigabyte_gpu::LAST_PORT && self.at
            < self.packets.len()
    }

    /// Nothing is left to be written.
    pub open spec fn done(self) -> bool {
        self.failed is Some || self.at >= self.packets.len()
    }

    /// The write that is due.
    pub open spec fn due(self) -> I2cWriteView {
        write_to(
            self.packets[self.at as int],
            match self.fallback {
                Some(port) => port,
                None => gigabyte_gpu::I2C_PORT as nat,
            },
        )
    }

    /// The state after the status of the write that was due.
    pub open spec fn after(self, status: i32) -> GpuState {
        if self.done() {
            self
        } else if status == 0 {
            GpuState { at: self.at + 1, fallback: None, ..self }
        } else {
            match self.fallback {
                None => GpuState { fallback: Some(0), first_status: status, ..self },
                Some(port) => if port < gigabyte_gpu::LAST_PORT {
                    GpuState { fallback: Some(port + 1), ..self }
                } else {
                    GpuState { failed: Some(self.first_status), ..self }
                },
            }
        }
    }

    /// A bound on the number of writes that can still follow.
    pub open spec fn left(self) -> nat {
        if self.done() {
            0
        } else {
            (9 * (self.packets.len() - self.at) - match self.fallback {
                None => 0nat,
                Some(port) => port + 1,
            }) as nat
        }
    }

    /// What the writing comes to from here on.
    pub open spec fn outcome(self, driver: Driver, log: Seq<I2cWriteView>) -> (
        Seq<I2cWriteView>,
        Option<i32>,
    ) {
        if self.done() {
            (log, self.failed)
        } else {
            match self.fallback {
                None => packets_run(driver, log, self.packets, self.at),
                Some(port) => {
                    let (tried, taken) = fallback_run(
                        driver,
                        log,
                        self.packets[self.at as int],
                        port,
                    );
                    if taken {
                        packets_run(driver, tried, self.packets, self.at + 1)
                    } else {
                        (tried, Some(self.first_status))
                    }
                },
            }
        }
    }
}

/// Every step of a session keeps what the writing comes to, and comes nearer to its end.
pub proof fn law_gpu_step(s: GpuState, driver: Driver, log: Seq<I2cWriteView>)
    requires
        s.wf(),
        !s.done(),
    ensures
        ({
            let sent = log.push(s.due());
            let next = s.after(driver(sent));
            &&& next.wf()
            &&& next.outcome(driver, sent) == s.outcome(driver, log)
            &&& next.left() < s.left()
        }),
{
    reveal_with_fuel(packets_run, 2);
    reveal_with_fuel(fallback_run, 2);
}

/// A session carried on for at most `steps` writes.
pub open spec fn session_run(
    s: GpuState,
    driver: Driver,
    log: Seq<I2cWriteView>,
    steps: nat,
) -> (GpuState, Seq<I2cWriteView>)
    decreases steps,
{
    if steps == 0 || s.done() {
        (s, log)
    } else {
        let sent = log.push(s.due());
        session_run(s.after(driver(sent)), driver, sent, (steps - 1) as nat)
    }
}

/// With every driver, a session that is carried on long enough ends, and it makes exactly the
/// writes of the procedure and comes to exactly its result.
pub proof fn law_gpu_session_follows_procedure(
    s: GpuState,
    driver: Driver,
    log: Seq<I2cWriteView>,
    steps: nat,
)
    requires
        s.wf(),
        s.left() <= steps,
    ensures
        ({
            let (end, sent) = session_run(s, driver, log, steps);
            &&& end.done()
            &&& (sent, end.failed) == s.outcome(driver, log)
        }),
    decreases steps,
{
    if !s.done() {
        law_gpu_step(s, driver, log);
        let sent = log.push(s.due());
        law_gpu_session_follows_procedure(
            s.after(driver(sent)),
            driver,
            sent,
            (steps - 1) as nat,
        );
    }
}

impl GpuSession {
    /// Begins the writing of packets.
    pub fn start(packets: Vec<[u8; 8]>) -> (session: Self)
        ensures
            session@.wf(),
            session@ == (GpuState {
                packets: gigabyte_gpu::packet_views(packets@),
                at: 0,
                fallback: None,
                first_status: 0,
                failed: None,
            }),
            forall|driver: Driver| #[trigger]
                session@.outcome(driver, Seq::empty()) == packets_run(
                    driver,
                    Seq::empty(),
                    gigabyte_gpu::packet_views(packets@),
                    0,
                ),
    {
        GpuSession { packets, at: 0, fallback: None, first_status: 0, failed: None }
    }

    /// The write that is due; `None` once the session has ended.
    pub fn pending(&self) -> (w: Option<I2cWrite>)
        requires
            self@.wf(),
        ensures
            w is None <==> self@.done(),
            w matches Some(write) ==> write@ == self@.due(),
    {
        if self.failed.is_some() || self.at >= self.packets.len() {
            return None;
        }
        let port: u8 = match self.fallback {
            Some(port) => port,
            None => gigabyte_gpu::I2C_PORT,
        };
        Some(I2cWrite { addr: gigabyte_gpu::I2C_ADDR, port, data: self.packets[self.at] })
    }

    /// Takes in the status of the write that was due.
    pub fn deliver(&mut self, status: i32)
        requires
            old(self)@.wf(),
        ensures
            final(self)@.wf(),
            final(self)@ == old(self)@.after(status),
    {
        if self.failed.is_some() || self.at >= self.packets.len() {
            return ;
        }
        if status == 0 {
            self.at += 1;
            self.fallback = None;
            return ;
        }
        match self.fallback {
            None => {
                self.fallback = Some(0);
                self.first_status = status;
            },
            Some(port) => {
                if port < gigabyte_gpu::LAST_PORT {
                    self.fallback = Some(port + 1);
                } else {
                    self.failed = Some(self.first_status);
                }
            },
        }
    }

    /// The status of the write to the usual port, where no port took a packet.
    pub fn failure(&self) -> (status: Option<i32>)
        ensures
            status == self@.failed,
    {
        self.failed
    }
}

// ---------------------------------------------------------------------------
// A model of the controller
// ---------------------------------------------------------------------------

/// The zones of a controller: the color of each, and its mode, speed and brightness.
pub struct GpuZones {
    pub colors: Map<nat, Color>,
    pub modes: Map<nat, (u8, u8, u8)>,
}

/// What a packet does to the zones.
pub open spec fn zones_after(z: GpuZones, p: Seq<u8>) -> GpuZones {
    if p[0] == gigabyte_gpu::REG_MODE {
        GpuZones { modes: z.modes.insert((p[5] - 1) as nat, (p[1], p[2], p[3])), ..z }
    } else if p[0] == gigabyte_gpu::REG_COLOR_LEFT_MID {
        GpuZones {
            colors: z.colors.insert(0, Color { r: p[2], g: p[3], b: p[4] }).insert(
                1,
                Color { r: p[5], g: p[6], b: p[7] },
            ),
            ..z
        }
    } else if p[0] == gigabyte_gpu::REG_COLOR_RIGHT {
        GpuZones { colors: z.colors.insert(2, Color { r: p[2], g: p[3], b: p[4] }), ..z }
    } else if p[0] == gigabyte_gpu::REG_COLOR_SINGLE {
        GpuZones {
            colors: z.colors.insert((p[4] - 1) as nat, Color { r: p[1], g: p[2], b: p[3] }),
            ..z
        }
    } else {
        z
    }
}

/// What a row of packets does to the zones.
pub open spec fn zones_after_all(z: GpuZones, packets: Seq<Seq<u8>>) -> GpuZones
    decreases packets.len(),
{
    if packets.len() == 0 {
        z
    } else {
        zones_after(zones_after_all(z, packets.drop_last()), packets.last())
    }
}

/// The zone shows the color, in the static mode at full brightness.
pub open spec fn zone_shows(z: GpuZones, zone: nat, color: Color) -> bool {
    &&& z.colors.dom().contains(zone)
    &&& z.colors[zone] == color
    &&& z.modes.dom().contains(zone)
    &&& z.modes[zone] == (
        gigabyte_gpu::MODE_STATIC,
        gigabyte_gpu::SPEED_NORMAL,
        gigabyte_gpu::BRIGHTNESS_MAX,
    )
}

proof fn lemma_paint_zone(z: GpuZones, color: Color, zones: nat)
    requires
        0 < zones <= 4,
    ensures
        zones_after_all(z, gigabyte_gpu::paint_packets(color, zones)) == zones_after(
            zones_after(
                zones_after_all(
                    z,
                    gigabyte_gpu::paint_packets(color, (zones - 1) as nat),
                ),
                gigabyte_gpu::mode_packet((zones - 1) as nat),
            ),
            gigabyte_gpu::color_packet((zones - 1) as nat, color),
        ),
{
    reveal_with_fuel(zones_after_all, 3);
    let before = gigabyte_gpu::paint_packets(color, (zones - 1) as nat);
    let zone = (zones - 1) as nat;
    let one = before.push(gigabyte_gpu::mode_packet(zone));
    let two = one.push(gigabyte_gpu::color_packet(zone, color));
    assert(two.drop_last() =~= one);
    assert(one.drop_last() =~= before);
}

/// Painting sets every zone of the card to the color, in the static mode at full brightness,
/// whatever the zones showed before, and leaves any further zone as it was.
pub proof fn law_painting_covers_all_zones(z: GpuZones, color: Color)
    ensures
        ({
            let end = zones_after_all(
                z,
                gigabyte_gpu::paint_packets(color, gigabyte_gpu::NUM_ZONES as nat),
            );
            &&& forall|zone: nat| zone < 4 ==> #[trigger] zone_shows(end, zone, color)
            &&& forall|zone: nat|
                zone >= 4 ==> {
                    &&& #[trigger] end.colors.dom().contains(zone) == z.colors.dom().contains(zone)
                    &&& end.colors[zone] == z.colors[zone]
                    &&& end.modes.dom().contains(zone) == z.modes.dom().contains(zone)
                    &&& end.modes[zone] == z.modes[zone]
                }
        }),
{
    lemma_paint_zone(z, color, 1);
    lemma_paint_zone(z, color, 2);
    lemma_paint_zone(z, color, 3);
    lemma_paint_zone(z, color, 4);
    assert(gigabyte_gpu::paint_packets(color, 0) =~= Seq::empty());
}

} // verus!
