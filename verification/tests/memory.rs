use lightshow::backend::{Backend, Color, SetError};
use lightshow::backends::diag;
use lightshow::backends::ene;
use lightshow::backends::gskill_ddr5::{
    self, Attempt, GSkillDdr5, OpenStep, SearchDir, SmbusKind,
};
use lightshow::backends::remap;
use lightshow::pawnio::SmbusXfer;
use std::collections::HashMap;

const COLOR: Color = Color { r: 0xff, g: 0x00, b: 0x55 };

/// A controller on a simulated bus.
#[derive(Clone)]
struct Chip {
    addr: u8,
    latched: u16,
    regs: HashMap<u16, u8>,
    pattern: bool,
}

impl Chip {
    fn new(addr: u8) -> Chip {
        Chip { addr, latched: 0, regs: HashMap::new(), pattern: true }
    }

    fn named(mut self, start: u16, name: &str) -> Chip {
        for (i, b) in name.bytes().enumerate() {
            self.regs.insert(start + i as u16, b);
        }
        self
    }
}

/// A simulated bus. The chips at the default address answer one at a time.
struct Bus {
    chips: Vec<Chip>,
    sent: usize,
    stores: usize,
    broken_at: Option<usize>,
}

impl Bus {
    fn new(chips: Vec<Chip>) -> Bus {
        Bus { chips, sent: 0, stores: 0, broken_at: None }
    }

    fn send(&mut self, x: SmbusXfer) -> Result<u8, i32> {
        self.sent += 1;
        if self.broken_at == Some(self.sent) {
            return Err(-77);
        }
        let addr = match x {
            SmbusXfer::WriteByte { addr, .. } => addr,
            SmbusXfer::WriteWord { addr, .. } => addr,
            SmbusXfer::ReadByte { addr, .. } => addr,
        };
        let chip = match self.chips.iter_mut().find(|c| c.addr == addr) {
            Some(chip) => chip,
            None => return Err(-1),
        };
        match x {
            SmbusXfer::WriteWord { command, word, .. } => {
                assert_eq!(command, 0x00);
                chip.latched = word.swap_bytes();
                Ok(0)
            }
            SmbusXfer::WriteByte { command, value, .. } => {
                assert_eq!(command, 0x01);
                self.stores += 1;
                chip.regs.insert(chip.latched, value);
                if chip.latched == 0x80F9 {
                    chip.addr = value >> 1;
                }
                Ok(0)
            }
            SmbusXfer::ReadByte { command, .. } => match command {
                0x81 => Ok(*chip.regs.get(&chip.latched).unwrap_or(&0)),
                0xA0..=0xAF if chip.pattern => Ok(command - 0xA0),
                _ => Ok(0),
            },
        }
    }
}

fn detect(bus: &mut Bus) -> Result<Vec<u8>, i32> {
    let mut session = remap::remap_and_detect();
    let mut steps = 0;
    while let Some(x) = session.pending() {
        let reply = bus.send(x);
        session.deliver(reply);
        steps += 1;
        assert!(steps <= remap::MAX_STEPS);
    }
    session.result().unwrap()
}

#[test]
fn registers_are_latched_then_moved() {
    assert_eq!(
        ene::ene_write(0x39, 0x8021, 0x01),
        vec![
            SmbusXfer::WriteWord { addr: 0x39, command: 0x00, word: 0x2180 },
            SmbusXfer::WriteByte { addr: 0x39, command: 0x01, value: 0x01 },
        ]
    );
    assert_eq!(
        ene::ene_read(0x39, 0x1000),
        vec![
            SmbusXfer::WriteWord { addr: 0x39, command: 0x00, word: 0x0010 },
            SmbusXfer::ReadByte { addr: 0x39, command: 0x81 },
        ]
    );
}

#[test]
fn a_read_gives_back_what_was_written() {
    let mut bus = Bus::new(vec![Chip::new(0x39), Chip::new(0x3A)]);
    for x in ene::ene_write(0x39, 0x80A0, 0x42) {
        bus.send(x).unwrap();
    }
    let replies: Vec<u8> = ene::ene_read(0x39, 0x80A0).into_iter().map(|x| bus.send(x).unwrap()).collect();
    assert_eq!(replies[1], 0x42);
    // The other chip has seen nothing.
    assert!(bus.chips[1].regs.is_empty());
}

#[test]
fn an_empty_bus_has_no_controllers() {
    let mut bus = Bus::new(vec![]);
    assert_eq!(detect(&mut bus), Ok(vec![]));
    // One question at the default address, one at each of the sixteen addresses.
    assert_eq!(bus.sent, 17);
}

#[test]
fn dimms_get_the_first_free_addresses() {
    let mut bus = Bus::new(vec![
        Chip::new(0x77),
        Chip::new(0x3A),
        Chip::new(0x77),
    ]);
    assert_eq!(detect(&mut bus), Ok(vec![0x39, 0x3A, 0x3B]));
    assert_eq!(bus.chips[0].addr, 0x39);
    assert_eq!(bus.chips[0].regs[&0x80F8], 0);
    assert_eq!(bus.chips[0].regs[&0x80F9], 0x72);
    assert_eq!(bus.chips[2].addr, 0x3B);
    assert_eq!(bus.chips[2].regs[&0x80F8], 1);
}

#[test]
fn a_second_detection_moves_nothing() {
    let mut bus = Bus::new(vec![Chip::new(0x77), Chip::new(0x77)]);
    let first = detect(&mut bus).unwrap();
    let stores = bus.stores;
    assert_eq!(stores, 4);
    assert_eq!(detect(&mut bus), Ok(first));
    assert_eq!(bus.stores, stores);
}

#[test]
fn at_most_eight_dimms_are_moved() {
    let mut bus = Bus::new(vec![Chip::new(0x77); 9]);
    let found = detect(&mut bus).unwrap();
    assert_eq!(found, vec![0x39, 0x3A, 0x3B, 0x3C, 0x3D, 0x4F, 0x66, 0x67, 0x77]);
}

#[test]
fn without_a_free_address_nothing_is_moved() {
    let pool = [
        0x39, 0x3A, 0x3B, 0x3C, 0x3D, 0x4F, 0x66, 0x67, 0x70, 0x71, 0x72, 0x73, 0x74, 0x75, 0x76, 0x77,
    ];
    let mut bus = Bus::new(pool.iter().map(|a| Chip::new(*a)).collect());
    assert_eq!(detect(&mut bus), Ok(pool.to_vec()));
    assert_eq!(bus.stores, 0);
}

#[test]
fn a_failed_write_ends_the_remap() {
    // The fifth transaction stores the slot.
    for at in 3..=6 {
        let mut bus = Bus::new(vec![Chip::new(0x77)]);
        bus.broken_at = Some(at);
        assert_eq!(detect(&mut bus), Err(-77), "{}", at);
    }
}

#[test]
fn other_devices_are_no_controllers() {
    let mut odd = Chip::new(0x70);
    odd.pattern = false;
    let micron = Chip::new(0x71).named(0x1030, "Micron Technolog");
    let maker = Chip::new(0x72).named(0x1030, "MicroN");
    let mut bus = Bus::new(vec![odd, micron, maker]);
    assert_eq!(detect(&mut bus), Ok(vec![0x72]));
}

#[test]
fn painting_sets_the_registers() {
    let mut bus = Bus::new(vec![Chip::new(0x39).named(0x8030, "x"), Chip::new(0x3A)]);
    for x in gskill_ddr5::painting(0x39, COLOR) {
        bus.send(x).unwrap();
    }
    let regs = &bus.chips[0].regs;
    assert_eq!(regs[&0x8020], 0);
    assert_eq!(regs[&0x8021], 1);
    assert_eq!(regs[&0x80A0], 1);
    for i in 0..15u16 {
        assert_eq!(regs[&(0x8010 + i)], [0xff, 0x55, 0x00][i as usize % 3]);
    }
    for i in 0..30u16 {
        assert_eq!(regs[&(0x8160 + i)], [0xff, 0x55, 0x00][i as usize % 3]);
    }
    assert_eq!(regs[&0x8030], b'x');
    assert_eq!(regs.len(), 3 + 15 + 30 + 1);
    assert!(bus.chips[1].regs.is_empty());
    assert_eq!(gskill_ddr5::painting(0x39, COLOR).len(), 2 * (3 + 15 + 30));
}

#[test]
fn a_painting_stops_at_the_first_failure() {
    for broken_at in [None, Some(1), Some(40), Some(96)] {
        let mut bus = Bus::new(vec![Chip::new(0x39)]);
        bus.broken_at = broken_at;
        let list = gskill_ddr5::painting(0x39, COLOR);
        let mut run = ene::ListRun::start(list.clone());
        let mut sent = Vec::new();
        while let Some(x) = run.pending() {
            let reply = bus.send(x);
            sent.push(x);
            run.deliver(reply);
        }
        let n = broken_at.unwrap_or(list.len());
        assert_eq!(sent, list[..n].to_vec());
        assert_eq!(run.failure(), broken_at.map(|_| -77));
    }
}

#[test]
fn color_blocks_are_red_blue_green() {
    let list = gskill_ddr5::ene_write_color_block(0x39, 0x8010, COLOR, 1);
    assert_eq!(list.len(), 6);
    assert_eq!(list[0], SmbusXfer::WriteWord { addr: 0x39, command: 0, word: 0x1080 });
    assert_eq!(list[1], SmbusXfer::WriteByte { addr: 0x39, command: 1, value: 0xff });
    assert_eq!(list[3], SmbusXfer::WriteByte { addr: 0x39, command: 1, value: 0x55 });
    assert_eq!(list[5], SmbusXfer::WriteByte { addr: 0x39, command: 1, value: 0x00 });
    assert!(gskill_ddr5::ene_write_color_block(0x39, 0x8010, COLOR, 0).is_empty());
}

#[test]
fn modules_are_listed_by_address() {
    let backend = GSkillDdr5::new();
    assert!(backend.enumerate(&None).is_empty());
    let devices = backend.enumerate(&Some(vec![0x39, 0x70]));
    let ids: Vec<String> = devices.iter().map(|d| d.id.to_string()).collect();
    assert_eq!(ids, vec!["gskill-ddr5:ene-0x39", "gskill-ddr5:ene-0x70"]);
    assert_eq!(devices[0].vendor, "G.Skill");
    assert_eq!(devices[0].name, "G.Skill DDR5 RGB (ENE)");
    assert_eq!(devices[0].zones[0].name, "all");
    for d in &devices {
        let plan = backend.set_static(d, COLOR).unwrap();
        assert_eq!(d.id.key, format!("ene-0x{:02x}", plan.addr));
        assert_eq!(plan.xfers, gskill_ddr5::painting(plan.addr, COLOR));
    }
}

#[test]
fn malformed_module_keys_are_refused() {
    let backend = GSkillDdr5::new();
    for key in ["ene-0x", "ene-0x100", "ene-39", "ene-0xzz", ""] {
        let mut d = backend.enumerate(&Some(vec![0x39])).pop().unwrap();
        d.id.key = key.to_string();
        match backend.set_static(&d, COLOR) {
            Err(SetError::MalformedKey(m)) => {
                assert_eq!(m, format!("malformed device key `{}`", key))
            }
            _ => panic!("{:?} not refused", key),
        }
    }
}

#[test]
fn driver_modules_are_searched_in_order() {
    assert_eq!(gskill_ddr5::module_filename(SmbusKind::IntelI801), "SmbusI801.bin");
    assert_eq!(gskill_ddr5::module_filename(SmbusKind::AmdPiix4), "SmbusPIIX4.bin");
    let all = gskill_ddr5::search_dirs(true, true, true, true);
    assert_eq!(
        all,
        vec![
            SearchDir::Configured,
            SearchDir::LocalAppData,
            SearchDir::ExeDir,
            SearchDir::ProgramFiles,
            SearchDir::WorkingDir,
        ]
    );
    assert_eq!(
        gskill_ddr5::search_dirs(false, false, false, false),
        vec![SearchDir::ProgramFiles]
    );
    let present = vec![false, false, true, false, true];
    assert_eq!(gskill_ddr5::locate_module(&all, &present), Some(SearchDir::ExeDir));
    assert_eq!(gskill_ddr5::locate_module(&all, &vec![false; 5]), None);
}

#[test]
fn the_intel_module_is_tried_first() {
    let failed = |p: &str| Attempt::Failed { path: p.to_string(), error: "bad".to_string() };
    assert!(matches!(gskill_ddr5::open_smbus_module(&vec![]), OpenStep::Try(SmbusKind::IntelI801)));
    assert!(matches!(
        gskill_ddr5::open_smbus_module(&vec![Attempt::Opened]),
        OpenStep::Use(SmbusKind::IntelI801)
    ));
    assert!(matches!(
        gskill_ddr5::open_smbus_module(&vec![Attempt::Missing]),
        OpenStep::Try(SmbusKind::AmdPiix4)
    ));
    assert!(matches!(
        gskill_ddr5::open_smbus_module(&vec![failed("a"), Attempt::Opened]),
        OpenStep::Use(SmbusKind::AmdPiix4)
    ));
    match gskill_ddr5::open_smbus_module(&vec![failed("a"), Attempt::Missing]) {
        OpenStep::GiveUp(note) => {
            assert_eq!(note, "note: gskill-ddr5: SMBus pawn module load failed: a → bad")
        }
        _ => panic!("no end"),
    }
    match gskill_ddr5::open_smbus_module(&vec![failed("a"), failed("b")]) {
        OpenStep::GiveUp(note) => {
            assert_eq!(note, "note: gskill-ddr5: SMBus pawn module load failed: b → bad")
        }
        _ => panic!("no end"),
    }
    match gskill_ddr5::open_smbus_module(&vec![Attempt::Missing, Attempt::Missing]) {
        OpenStep::GiveUp(note) => assert_eq!(
            note,
            "note: gskill-ddr5: neither SmbusI801.bin nor SmbusPIIX4.bin found \
             (set $LIGHTSHOW_PAWNIO_MODULES_DIR to a directory containing them)"
        ),
        _ => panic!("no end"),
    }
}

#[test]
fn only_the_amd_module_is_set_up() {
    assert!(gskill_ddr5::configure(SmbusKind::IntelI801).is_empty());
    let calls = gskill_ddr5::configure(SmbusKind::AmdPiix4);
    assert_eq!(calls.len(), 2);
    assert_eq!((calls[0].name, &calls[0].input), ("ioctl_set_sleep_mode", &vec![2]));
    assert_eq!((calls[1].name, &calls[1].input), ("ioctl_piix4_port_sel", &vec![0]));
}

#[test]
fn a_bus_without_controllers_is_noted() {
    assert_eq!(
        gskill_ddr5::detection_note(SmbusKind::AmdPiix4, &vec![]),
        Some("note: gskill-ddr5: PawnIO (AmdPiix4) ready, no ENE controllers found".to_string())
    );
    assert_eq!(gskill_ddr5::detection_note(SmbusKind::IntelI801, &vec![0x39]), None);
}

#[test]
fn blocks_are_read_byte_by_byte() {
    let mut bus = Bus::new(vec![Chip::new(0x39).named(0x1000, "AUDA0-E6K5-0101")]);
    let mut block = ene::ene_read_block(0x39, 0x1000, 16);
    while let Some(x) = block.pending() {
        let reply = bus.send(x);
        block.deliver(reply);
    }
    assert_eq!(block.failure(), None);
    assert_eq!(block.bytes(), b"AUDA0-E6K5-0101\0".to_vec());
    assert_eq!(bus.sent, 32);
}

#[test]
fn a_block_from_the_first_register_goes_round() {
    let mut block = ene::ene_read_block(0x39, 0, 0x1_0001);
    let mut last = None;
    while let Some(x) = block.pending() {
        if let SmbusXfer::WriteWord { word, .. } = x {
            last = Some(word);
        }
        block.deliver(Ok(7));
    }
    assert_eq!(last, Some(0));
    assert_eq!(block.bytes().len(), 0x1_0001);
}

#[test]
fn a_block_that_breaks_off_is_filled_with_zeros() {
    let mut bus = Bus::new(vec![Chip::new(0x39).named(0x1000, "ABCD")]);
    bus.broken_at = Some(6);
    let mut block = ene::ene_read_block(0x39, 0x1000, 4);
    while let Some(x) = block.pending() {
        let reply = bus.send(x);
        block.deliver(reply);
    }
    assert_eq!(block.failure(), Some(-77));
    assert_eq!(block.bytes(), vec![b'A', b'B', 0, 0]);
    assert_eq!(bus.sent, 6);
}

#[test]
fn diagnostics_read_every_controller() {
    let mut bus = Bus::new(vec![
        Chip::new(0x39).named(0x1000, "first").named(0x8010, "rbg").named(0x1FFF, "z"),
        Chip::new(0x3A).named(0x1000, "second").named(0x8160, "RBG").named(0x81FF, "y"),
    ]);
    // The dump of the first controller breaks at its first register.
    bus.broken_at = Some(2 * 22 + 1);
    let mut session = diag::probe_diag(vec![0x39, 0x3A]);
    while let Some(x) = session.pending() {
        let reply = bus.send(x);
        session.deliver(reply);
    }
    assert_eq!(bus.stores, 0);
    let entries = session.result().unwrap();
    assert_eq!(entries.len(), 2);
    assert_eq!((entries[0].addr, entries[1].addr), (0x39, 0x3A));
    assert_eq!(&entries[0].name[..6], b"first\0");
    assert_eq!(&entries[1].name[..7], b"second\0");
    assert_eq!(&entries[0].v1_first, b"rbg");
    assert_eq!(&entries[1].v2_first, b"RBG");
    for e in &entries {
        assert_eq!(e.dump.len(), 0x2000 + 0x1E0);
        assert_eq!(e.dump[0].0, 0x0000);
        assert_eq!(e.dump[0x1FFF].0, 0x1FFF);
        assert_eq!(e.dump[0x2000].0, 0x8020);
        assert_eq!(e.dump[0x21DF].0, 0x81FF);
    }
    assert_eq!(entries[0].dump[0].1, None);
    assert_eq!(entries[1].dump[0].1, Some(0));
    assert_eq!(entries[0].dump[0x1FFF].1, Some(b'z'));
    assert_eq!(entries[1].dump[0x21DF].1, Some(b'y'));
}

#[test]
fn diagnostics_of_no_controller() {
    let session = diag::probe_diag(vec![]);
    assert_eq!(session.pending(), None);
    assert!(session.result().unwrap().is_empty());
}
