use lightshow::backend::{Backend, Color};
use lightshow::backends::gigabyte_mobo::{
    self, GigabyteMobo, HidStep, DEFAULT_LEDS_PER_HEADER,
};
use lightshow::hid::HidInfo;

const COLOR: Color = Color { r: 0x11, g: 0x22, b: 0x33 };

fn info(vendor_id: u16, product_id: u16, usage_page: u16, usage: u16, path: &str) -> HidInfo {
    HidInfo {
        vendor_id,
        product_id,
        usage_page,
        usage,
        interface: 0,
        manufacturer: None,
        product: None,
        path: path.to_string(),
    }
}

fn packet(head: &[u8]) -> [u8; 64] {
    let mut p = [0u8; 64];
    p[..head.len()].copy_from_slice(head);
    p
}

#[test]
fn short_packets() {
    assert_eq!(gigabyte_mobo::send_short(0x48, 0x01, 0x02), packet(&[0xCC, 0x48, 1, 2]));
    assert_eq!(gigabyte_mobo::send_apply(0x5702), packet(&[0xCC, 0x28, 0xFF, 0x00]));
    assert_eq!(gigabyte_mobo::send_apply(0x5711), packet(&[0xCC, 0x28, 0xFF, 0x07]));
}

#[test]
fn effect_packets() {
    assert_eq!(
        gigabyte_mobo::send_effect_all(0x5702, COLOR),
        packet(&[0xCC, 0x20, 0xFF, 0, 0, 0, 0, 0, 0, 0, 0, 0x01, 0xFF, 0, 0x33, 0x22, 0x11, 0])
    );
    let wide = gigabyte_mobo::send_effect_all(0x5711, COLOR);
    assert_eq!(&wide[2..6], &0x07FFu32.to_le_bytes());
    assert_eq!(&wide[14..18], &0x0011_2233u32.to_le_bytes());
}

#[test]
fn strip_packets_carry_nineteen_leds_each() {
    for n in [0usize, 1, 18, 19, 20, 32, 38, 39, 300] {
        let packets = gigabyte_mobo::send_strip_uniform(0x58, COLOR, n);
        assert_eq!(packets.len(), n.div_ceil(19));
        let mut strip = vec![0u8; 3 * n];
        for p in &packets {
            assert_eq!((p[0], p[1]), (0xCC, 0x58));
            let offset = u16::from_le_bytes([p[2], p[3]]) as usize;
            let count = p[4] as usize;
            strip[offset..offset + count].copy_from_slice(&p[5..5 + count]);
            assert!(p[5 + count..].iter().all(|b| *b == 0));
        }
        for led in strip.chunks(3) {
            assert_eq!(led, [0x22, 0x11, 0x33]);
        }
    }
    let two = gigabyte_mobo::send_strip_uniform(0x63, COLOR, 32);
    assert_eq!(&two[1][..8], &[0xCC, 0x63, 57, 0, 39, 0x22, 0x11, 0x33]);
}

#[test]
fn a_painting_is_this_row_of_steps() {
    let steps = gigabyte_mobo::painting(0x5702, COLOR);
    assert_eq!(steps.len(), 6 + 4 * 2);
    let mut heads = Vec::new();
    for s in &steps {
        match s {
            HidStep::Report(p) => {
                assert_eq!(p[0], 0xCC);
                heads.push((p[1], p[2], p[3]));
            }
            HidStep::Pause(ms) => heads.push((0, *ms as u8, 0)),
        }
    }
    assert_eq!(
        heads,
        vec![
            (0x48, 0, 0),
            (0x20, 0xFF, 0),
            (0x28, 0xFF, 0),
            (0x32, 0x1B, 0),
            (0, 50, 0),
            (0x34, 0, 0),
            (0x58, 0, 0),
            (0x58, 57, 0),
            (0x59, 0, 0),
            (0x59, 57, 0),
            (0x62, 0, 0),
            (0x62, 57, 0),
            (0x63, 0, 0),
            (0x63, 57, 0),
        ]
    );
}

#[test]
fn a_painting_reaches_every_led_of_every_header() {
    for header in [0x58u8, 0x59, 0x62, 0x63] {
        let mut strip = vec![0xEEu8; 3 * DEFAULT_LEDS_PER_HEADER + 6];
        for s in gigabyte_mobo::painting(0x5711, COLOR) {
            if let HidStep::Report(p) = s {
                if p[1] == header {
                    let offset = u16::from_le_bytes([p[2], p[3]]) as usize;
                    strip[offset..offset + p[4] as usize].copy_from_slice(&p[5..5 + p[4] as usize]);
                }
            }
        }
        let (painted, beyond) = strip.split_at(96);
        assert!(painted.chunks(3).all(|led| led == [0x22, 0x11, 0x33]));
        assert!(beyond.iter().all(|b| *b == 0xEE));
    }
}

#[test]
fn product_ids_in_paths() {
    let pid = gigabyte_mobo::pid_from_path;
    assert_eq!(pid(r"\\?\HID#VID_048D&PID_5702&Col02#7&abc"), 0x5702);
    assert_eq!(pid(r"\\?\hid#vid_048d&pid_5711&col02#7&abc"), 0x5711);
    assert_eq!(pid("/dev/hidraw3"), 0);
    assert_eq!(pid("PID_"), 0);
    assert_eq!(pid("PID_xyz"), 0);
    assert_eq!(pid("PID_12345"), 0);
    assert_eq!(pid("PID_1"), 1);
    assert_eq!(pid("PID_1&PID_2"), 1);
    assert_eq!(pid("PIPID_8950"), 0x8950);
}

#[test]
fn every_product_id_reads_back() {
    for p in [0u16, 0x8297, 0x8950, 0x5702, 0x5711, 0xFFFF] {
        assert_eq!(gigabyte_mobo::pid_from_path(&format!("HID#VID_048D&PID_{:04X}&Col02", p)), p);
        assert_eq!(gigabyte_mobo::pid_from_path(&format!("é#PID_{:04x}", p)), p);
    }
}

#[test]
fn only_the_led_collection_of_known_products_is_a_device() {
    let found = vec![
        info(0x048D, 0x5702, 0xFF89, 0x00CC, "A"),
        info(0x048D, 0x5702, 0xFF89, 0x0010, "B"),
        info(0x048D, 0x5702, 0xFF88, 0x00CC, "C"),
        info(0x048D, 0x1234, 0xFF89, 0x00CC, "D"),
        info(0x1234, 0x5702, 0xFF89, 0x00CC, "E"),
        info(0x048D, 0x8297, 0xFF89, 0x00CC, "F"),
        info(0x048D, 0x8950, 0xFF89, 0x00CC, "G"),
        info(0x048D, 0x5711, 0xFF89, 0x00CC, "H"),
    ];
    let devices = GigabyteMobo::new().enumerate(&found);
    let keys: Vec<&str> = devices.iter().map(|d| d.id.key.as_str()).collect();
    assert_eq!(keys, vec!["A", "F", "G", "H"]);
    assert_eq!(devices[0].id.backend, "gigabyte-mobo");
    assert_eq!(devices[0].vendor, "Gigabyte");
    assert_eq!(devices[0].name, "Gigabyte RGB Fusion 2.0 (ITE 048d:5702)");
    assert_eq!(devices[0].zones.len(), 1);
    assert_eq!(devices[0].zones[0].name, "all");
    assert_eq!(devices[0].zones[0].led_count, 0);
}

#[test]
fn every_listed_board_can_be_painted() {
    let found = vec![info(0x048D, 0x5711, 0xFF89, 0x00CC, "x#PID_5711#y")];
    let backend = GigabyteMobo::new();
    let devices = backend.enumerate(&found);
    let plan = backend.set_static(&devices[0], COLOR).unwrap();
    assert_eq!(plan.path, "x#PID_5711#y");
    match plan.steps[2] {
        HidStep::Report(p) => assert_eq!(p, packet(&[0xCC, 0x28, 0xFF, 0x07])),
        _ => panic!("no report"),
    }
}

#[test]
fn raw_payloads_are_framed() {
    assert_eq!(gigabyte_mobo::raw_write(&[]).unwrap(), packet(&[0xCC]));
    assert_eq!(gigabyte_mobo::raw_write(&[0x28, 0xFF]).unwrap(), packet(&[0xCC, 0x28, 0xFF]));
    let full = [7u8; 63];
    assert_eq!(gigabyte_mobo::raw_write(&full).unwrap()[63], 7);
    assert_eq!(
        gigabyte_mobo::raw_write(&[0u8; 64]),
        Err("payload too long: 64 bytes, max 63".to_string())
    );
}

#[test]
fn reports_have_names_in_messages() {
    assert_eq!(
        gigabyte_mobo::report_label(&gigabyte_mobo::send_short(0x48, 0, 0)),
        "send_feature_report op=0x48"
    );
    assert_eq!(
        gigabyte_mobo::report_label(&gigabyte_mobo::send_effect_all(0x5702, COLOR)),
        "send effect packet"
    );
    let strip = gigabyte_mobo::send_strip_uniform(0x59, COLOR, 32);
    assert_eq!(gigabyte_mobo::report_label(&strip[1]), "strip write header=0x59 off=57");
}
