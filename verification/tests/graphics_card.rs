use lightshow::backend::{Backend, Color, Device, SetError};
use lightshow::backends::gigabyte_gpu::{self, GigabyteGpu, GpuPlan};
use lightshow::backends::gpu_session::GpuSession;
use lightshow::nvapi::{self, I2cSpeed, NvFunction, NvI2cInfoV3, PciIdentifiers};

const COLOR: Color = Color { r: 0x11, g: 0x22, b: 0x33 };

fn ids(device_id: u32, subsystem_id: u32) -> PciIdentifiers {
    PciIdentifiers { device_id, subsystem_id, revision_id: 0xA1, ext_device_id: 0 }
}

#[test]
fn no_more_handles_are_valid_than_there_is_room_for() {
    for (count, valid) in [(0, 0), (1, 1), (63, 63), (64, 64), (65, 64), (u32::MAX, 64)] {
        assert_eq!(nvapi::valid_gpus(count), valid);
    }
}

#[test]
fn known_cards_are_recognized() {
    assert_eq!(
        gigabyte_gpu::recognize(&ids(0x2684_10DE, 0x40BF_1458)),
        Some("Gigabyte GeForce RTX 4090 GAMING OC")
    );
    assert_eq!(
        gigabyte_gpu::recognize(&ids(0x2684_10DE, 0x21D1_1458)),
        Some("AORUS GeForce RTX 4090 MASTER")
    );
    assert_eq!(
        gigabyte_gpu::recognize(&ids(0x2684_10DE, 0x40BD_1458)),
        Some("Gigabyte GeForce RTX 4090 AERO OC")
    );
    assert_eq!(gigabyte_gpu::recognize(&ids(0x2684_10DF, 0x40BF_1458)), None);
    assert_eq!(gigabyte_gpu::recognize(&ids(0x2684_10DE, 0x40BF_1459)), None);
    assert_eq!(gigabyte_gpu::recognize(&ids(0x2704_10DE, 0x40BF_1458)), None);
    assert_eq!(gigabyte_gpu::recognize(&ids(0x2684_10DE, 0x1234_1458)), None);
}

#[test]
fn cards_keep_their_places() {
    let backend = GigabyteGpu::new();
    assert!(backend.enumerate(&None).is_empty());
    let found = Some(vec![
        ids(0x2684_10DE, 0x40BD_1458),
        ids(0x1234_1002, 0x0000_1458),
        ids(0x2684_10DE, 0x21D1_1458),
    ]);
    let devices = backend.enumerate(&found);
    let keys: Vec<String> = devices.iter().map(|d| d.id.to_string()).collect();
    assert_eq!(keys, vec!["gigabyte-gpu:nvapi-0", "gigabyte-gpu:nvapi-2"]);
    assert_eq!(devices[1].name, "AORUS GeForce RTX 4090 MASTER");
    for (d, index) in devices.iter().zip([0usize, 2]) {
        assert_eq!(backend.set_static(d, COLOR).unwrap().index, index);
    }
}

fn with_key(key: &str) -> Device {
    let mut devices = GigabyteGpu::new().enumerate(&Some(vec![ids(0x2684_10DE, 0x40BD_1458)]));
    let mut d = devices.pop().unwrap();
    d.id.key = key.to_string();
    d
}

#[test]
fn malformed_card_keys_are_refused() {
    for key in ["nvapi-", "nvapi-x", "gpu-0", "nvapi--1", "nvapi-18446744073709551616"] {
        match GigabyteGpu::new().set_static(&with_key(key), COLOR) {
            Err(SetError::MalformedKey(m)) => assert_eq!(m, format!("malformed device key {}", key)),
            _ => panic!("{:?} not refused", key),
        }
    }
    assert_eq!(GigabyteGpu::new().set_static(&with_key("nvapi-+7"), COLOR).unwrap().index, 7);
}

#[test]
fn a_card_that_has_gone_is_told() {
    let plan = GpuPlan { index: 2, packets: vec![] };
    assert_eq!(gigabyte_gpu::still_present(&plan, 3), Ok(2));
    assert_eq!(
        gigabyte_gpu::still_present(&plan, 2),
        Err("GPU index 2 no longer enumerates".to_string())
    );
}

#[test]
fn packets_of_all_four_zones() {
    assert_eq!(
        gigabyte_gpu::painting(COLOR),
        vec![
            [0x88, 0x01, 0x02, 0x63, 0x00, 1, 0, 0],
            [0xB0, 0x01, 0x11, 0x22, 0x33, 0x11, 0x22, 0x33],
            [0x88, 0x01, 0x02, 0x63, 0x00, 2, 0, 0],
            [0xB0, 0x01, 0x11, 0x22, 0x33, 0x11, 0x22, 0x33],
            [0x88, 0x01, 0x02, 0x63, 0x00, 3, 0, 0],
            [0xB1, 0x01, 0x11, 0x22, 0x33, 0, 0, 0],
            [0x88, 0x01, 0x02, 0x63, 0x00, 4, 0, 0],
            [0x40, 0x11, 0x22, 0x33, 4, 0, 0, 0],
        ]
    );
    assert_eq!(gigabyte_gpu::write_mode(0), [0x88, 1, 2, 0x63, 0, 1, 0, 0]);
    assert_eq!(gigabyte_gpu::write_color(3, COLOR), [0x40, 0x11, 0x22, 0x33, 4, 0, 0, 0]);
}

/// Runs a session against ports that take writes or not; gives the ports in the order tried.
fn run(takes: &dyn Fn(u8, usize) -> i32) -> (Vec<u8>, Option<i32>) {
    let mut session = GpuSession::start(gigabyte_gpu::painting(COLOR));
    let mut ports = Vec::new();
    while let Some(write) = session.pending() {
        assert_eq!(write.addr, 0x71);
        let status = takes(write.port, ports.len());
        ports.push(write.port);
        session.deliver(status);
    }
    (ports, session.failure())
}

#[test]
fn writes_go_to_the_usual_port() {
    assert_eq!(run(&|_, _| 0), (vec![1; 8], None));
}

#[test]
fn other_ports_are_tried_in_turn() {
    let (ports, failure) = run(&|port, _| if port == 2 { 0 } else { -1 });
    assert_eq!(failure, None);
    assert_eq!(ports, [1u8, 0, 1, 2].repeat(8));
}

#[test]
fn a_packet_that_no_port_takes_ends_the_writing() {
    let (ports, failure) = run(&|_, n| -5 - n as i32);
    assert_eq!(ports, vec![1, 0, 1, 2, 3, 4, 5, 6, 7]);
    // What the usual port said is what is reported.
    assert_eq!(failure, Some(-5));
}

#[test]
fn painting_sets_every_zone() {
    let mut colors = [[0u8; 3]; 4];
    let mut modes = [[0u8; 3]; 4];
    for p in gigabyte_gpu::painting(COLOR) {
        match p[0] {
            0x88 => modes[p[5] as usize - 1] = [p[1], p[2], p[3]],
            0xB0 => {
                colors[0] = [p[2], p[3], p[4]];
                colors[1] = [p[5], p[6], p[7]];
            }
            0xB1 => colors[2] = [p[2], p[3], p[4]],
            0x40 => colors[p[4] as usize - 1] = [p[1], p[2], p[3]],
            _ => panic!("unknown register"),
        }
    }
    assert_eq!(colors, [[0x11, 0x22, 0x33]; 4]);
    assert_eq!(modes, [[1, 2, 0x63]; 4]);
}

#[test]
fn write_arguments() {
    let info = NvI2cInfoV3::for_write(0x71, &[1, 2, 3], 1, 64);
    assert_eq!(info.version, 0x3_0040);
    assert_eq!(info.i2c_dev_address, 0xE2);
    assert_eq!(info.data, vec![1, 2, 3]);
    assert_eq!(info.size, 3);
    assert_eq!(info.i2c_speed, 0xFFFF);
    assert_eq!(info.i2c_speed_khz, 4);
    assert_eq!(info.port_id, 1);
    assert_eq!(info.is_port_id_set, 1);
    assert_eq!((info.display_mask, info.is_ddc_port, info.reg_addr_size), (0, 0, 0));
    assert!(info.i2c_reg_address.is_none());
    assert_eq!(NvI2cInfoV3::for_write(0xFF, &[], 0, 60).i2c_dev_address, 0xFE);
    assert_eq!(NvI2cInfoV3::for_write(0x71, &[], 0, 60).version, 0x3_003C);
}

#[test]
fn speeds_have_their_codes() {
    let all = [
        I2cSpeed::Default,
        I2cSpeed::Khz3,
        I2cSpeed::Khz10,
        I2cSpeed::Khz33,
        I2cSpeed::Khz100,
        I2cSpeed::Khz200,
        I2cSpeed::Khz400,
    ];
    for (code, speed) in all.iter().enumerate() {
        assert_eq!(speed.code(), code as u32);
    }
}

#[test]
fn driver_statuses() {
    assert_eq!(nvapi::check_status(0, "NvAPI_Initialize"), Ok(()));
    assert_eq!(
        nvapi::check_status(-2, "NvAPI_Initialize"),
        Err("NvAPI_Initialize failed: -2".to_string())
    );
    assert_eq!(nvapi::i2c_write_label(0x71, 1), "NvAPI_I2CWriteEx(addr=0x71, port=1)");
}

#[test]
fn driver_functions() {
    assert_eq!(NvFunction::Initialize.id(), 0x0150_E828);
    assert_eq!(NvFunction::Unload.id(), 0xD22B_DD7E);
    assert_eq!(NvFunction::EnumPhysicalGpus.id(), 0xE5AC_921F);
    assert_eq!(NvFunction::GpuGetPciIdentifiers.id(), 0x2DDF_B66E);
    assert_eq!(NvFunction::I2cWriteEx.id(), 0x283A_C65A);
    assert_eq!(NvFunction::Unload.name(), "NvAPI_Unload");
    assert_eq!(
        NvFunction::Initialize.missing(),
        "nvapi_QueryInterface returned null for NvAPI_Initialize (id 0x0150e828)"
    );
}
