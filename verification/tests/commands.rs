use lightshow::backend::{Backend, Color, ColorParseError, Device, DeviceId, Zone};
use lightshow::backends::diag::DiagEntry;
use lightshow::backends::gskill_ddr5::GSkillDdr5;
use lightshow::cli::{Cli, Cmd, Request, RequestError};
use lightshow::commands::ene_probe;
use lightshow::commands::payload::{self, HexError, ProbeError, ProbeRequest};
use lightshow::commands::results::{self, SetFailure, SetResult};
use lightshow::commands::select::{self, ResolveError};
use lightshow::commands::set_session::{SetSession, SetStep};
use lightshow::commands::show;
use lightshow::hid::{self, HidInfo};
use lightshow::text::DigitsError;

fn device(backend: &'static str, key: &str) -> Device {
    Device {
        id: DeviceId { backend, key: key.to_string() },
        vendor: "Vendor",
        name: format!("Name of {}", key),
        zones: vec![
            Zone { name: "all".to_string(), led_count: 0 },
            Zone { name: "a-long-zone-name".to_string(), led_count: 12 },
        ],
    }
}

fn ids(devices: &[Device]) -> Vec<String> {
    devices.iter().map(|d| d.id.to_string()).collect()
}

#[test]
fn filters_are_parts_of_ids() {
    let devices = vec![device("a", "k1"), device("a", "k12"), device("b", "x")];
    assert_eq!(ids(&select::select_devices(&devices, None)), vec!["a:k1", "a:k12", "b:x"]);
    assert_eq!(ids(&select::select_devices(&devices, Some("a:"))), vec!["a:k1", "a:k12"]);
    assert_eq!(ids(&select::select_devices(&devices, Some("k12"))), vec!["a:k12"]);
    assert_eq!(ids(&select::select_devices(&devices, Some(""))).len(), 3);
    assert!(select::select_devices(&devices, Some("nothing")).is_empty());
    // A whole id picks its own device, and no other that contains it.
    assert_eq!(ids(&select::select_devices(&devices, Some("a:k1"))), vec!["a:k1"]);
    assert_eq!(ids(&select::select_devices(&devices, Some("a:k12"))), vec!["a:k12"]);
    // A shorter filter that is no whole id picks no less.
    assert_eq!(ids(&select::select_devices(&devices, Some("k1"))), vec!["a:k1", "a:k12"]);
    assert_eq!(ids(&select::select_devices(&devices, Some(":k1"))), vec!["a:k1", "a:k12"]);
    assert!(select::is_picked(Some("12"), false, &devices[1].id));
    assert!(!select::is_picked(Some("12"), true, &devices[1].id));
    assert!(select::is_whole_id(Some("a:k12"), &devices[1].id));
    assert!(!select::is_whole_id(Some("k12"), &devices[1].id));
    assert!(!select::is_whole_id(None, &devices[1].id));
    // The whole device comes along.
    let picked = select::select_devices(&devices, Some("b:x"));
    assert_eq!(picked[0].vendor, "Vendor");
    assert_eq!(picked[0].name, "Name of x");
    assert_eq!(picked[0].zones[1].name, "a-long-zone-name");
    assert_eq!(picked[0].zones[1].led_count, 12);
}

#[test]
fn a_filter_must_mean_one_device() {
    let devices = vec![device("a", "k1"), device("a", "k12"), device("b", "x")];
    assert_eq!(select::resolve_device(&devices, "k12").unwrap().id.to_string(), "a:k12");
    match select::resolve_device(&devices, "zz") {
        Err(ResolveError::NoMatch(m)) => assert_eq!(m, "no device matched `zz`"),
        _ => panic!("not refused"),
    }
    match select::resolve_device(&devices, "k1") {
        Err(e) => {
            assert!(matches!(e, ResolveError::Ambiguous(_)));
            assert_eq!(e.to_string(), "filter `k1` matched 2 devices:\n  a:k1\n  a:k12");
        }
        _ => panic!("not refused"),
    }
    // A part of an id stays a part, also where it is the whole id of another device.
    match select::resolve_device(&devices, "a:k1") {
        Err(ResolveError::Ambiguous(m)) => {
            assert_eq!(m, "filter `a:k1` matched 2 devices:\n  a:k1\n  a:k12")
        }
        _ => panic!("not refused"),
    }
    assert_eq!(select::resolve_device(&devices, "a:k12").unwrap().id.to_string(), "a:k12");
}

#[test]
fn a_whole_id_means_its_device() {
    let devices = vec![
        device("gigabyte-gpu", "nvapi-10"),
        device("gigabyte-gpu", "nvapi-1"),
        device("x-gigabyte-gpu", "nvapi-1"),
    ];
    for d in &devices {
        let id = d.id.to_string();
        assert_eq!(select::resolve_id(&devices, &id).unwrap().id.to_string(), id);
    }
    match select::resolve_id(&devices, "nvapi-1") {
        Err(e) => {
            assert!(matches!(e, ResolveError::Ambiguous(_)));
            assert!(e.to_string().starts_with("filter `nvapi-1` matched 3 devices:\n  gigabyte-gpu:"));
        }
        _ => panic!("not refused"),
    }
    match select::resolve_id(&devices, "zz") {
        Err(ResolveError::NoMatch(m)) => assert_eq!(m, "no device matched `zz`"),
        _ => panic!("not refused"),
    }
    assert_eq!(select::resolve_id(&devices, "nvapi-10").unwrap().id.key, "nvapi-10");
}

#[test]
fn backends_that_cannot_list_are_passed_over() {
    let found = vec![Some(vec![device("a", "1")]), None, Some(vec![device("c", "2"), device("c", "3")])];
    assert_eq!(ids(&select::gather(&found)), vec!["a:1", "c:2", "c:3"]);
}

#[test]
fn payloads_are_read() {
    assert_eq!(payload::parse_hex_bytes("00 00 00"), Ok(vec![0, 0, 0]));
    assert_eq!(payload::parse_hex_bytes("ff,ff,ff"), Ok(vec![0xff, 0xff, 0xff]));
    assert_eq!(payload::parse_hex_bytes("28FF"), Ok(vec![0x28, 0xFF]));
    assert_eq!(payload::parse_hex_bytes("2 8,\tf\u{3000}f\n"), Ok(vec![0x28, 0xFF]));
    assert_eq!(payload::parse_hex_bytes(""), Ok(vec![]));
}

#[test]
fn wrong_payloads_are_refused() {
    assert_eq!(payload::parse_hex_bytes("123"), Err(HexError::OddDigits));
    assert_eq!(payload::parse_hex_bytes("00 zz"), Err(HexError::BadHex { byte: 1 }));
    assert_eq!(payload::parse_hex_bytes("0x10"), Err(HexError::BadHex { byte: 0 }));
    assert_eq!(payload::parse_hex_bytes("+f"), Err(HexError::BadHex { byte: 0 }));
    assert_eq!(payload::parse_hex_bytes("00 é"), Err(HexError::BadHex { byte: 1 }));
    assert_eq!(payload::parse_hex_bytes("aéb"), Err(HexError::BadHex { byte: 0 }));
    assert_eq!(HexError::OddDigits.cause(), None);
    assert_eq!(HexError::BadHex { byte: 0 }.cause(), Some(DigitsError::InvalidDigit));
    assert_eq!(HexError::OddDigits.to_string(), "hex payload must have an even number of digits");
    assert_eq!(HexError::BadHex { byte: 12 }.to_string(), "invalid hex at byte 12");
}

#[test]
fn spelled_payloads_read_back() {
    let bytes = vec![0x00u8, 0x7F, 0x80, 0xFF];
    for sep in ["", " ", ",", ", ", "\t\n"] {
        let lower: Vec<String> = bytes.iter().map(|b| format!("{}{:02x}", sep, b)).collect();
        assert_eq!(payload::parse_hex_bytes(&lower.concat()), Ok(bytes.clone()));
        let upper: Vec<String> = bytes.iter().map(|b| format!("{}{:02X}", sep, b)).collect();
        assert_eq!(payload::parse_hex_bytes(&upper.concat()), Ok(bytes.clone()));
    }
}

#[test]
fn report_requests_are_read() {
    let cc = ProbeRequest { id: 0xcc, len: 64 };
    assert_eq!(payload::probe_request("cc", 64), Ok(cc));
    assert_eq!(payload::probe_request("0xcc", 64), Ok(cc));
    assert_eq!(payload::probe_request("0xCC", 64), Ok(cc));
    assert_eq!(payload::probe_request("5", 1), Ok(ProbeRequest { id: 5, len: 1 }));
    assert_eq!(payload::probe_request("ff", 4096), Ok(ProbeRequest { id: 255, len: 4096 }));
    let bad = |e: DigitsError| Err(ProbeError::BadReportId(e));
    assert_eq!(payload::probe_request("100", 64), bad(DigitsError::TooLarge));
    assert_eq!(payload::probe_request("0X1", 64), bad(DigitsError::InvalidDigit));
    // The first fault counts.
    assert_eq!(payload::probe_request("fffz", 64), bad(DigitsError::TooLarge));
    assert_eq!(payload::probe_request("ffz", 64), bad(DigitsError::InvalidDigit));
    assert_eq!(payload::probe_request("0x0xcc", 64), bad(DigitsError::InvalidDigit));
    assert_eq!(payload::probe_request("+c", 64), bad(DigitsError::InvalidDigit));
    assert_eq!(payload::probe_request("", 0), bad(DigitsError::Empty));
    assert_eq!(payload::probe_request("0x", 1), bad(DigitsError::Empty));
    for id in 0..=255u8 {
        let want = Ok(ProbeRequest { id, len: 9 });
        assert_eq!(payload::probe_request(&format!("{:02x}", id), 9), want);
        assert_eq!(payload::probe_request(&format!("0x{:02X}", id), 9), want);
    }
    assert_eq!(payload::probe_request("cc", 0), Err(ProbeError::BadLength));
    assert_eq!(payload::probe_request("cc", 4097), Err(ProbeError::BadLength));
    let e = ProbeError::BadReportId(DigitsError::Empty);
    assert_eq!(e.to_string(), "--report-id must be hex like `cc` or `0xcc`");
    assert_eq!(e.cause(), Some(DigitsError::Empty));
    assert_eq!(ProbeError::BadLength.cause(), None);
    assert_eq!(ProbeError::BadLength.to_string(), "--len must be 1..=4096");
    assert_eq!(payload::probe_buffer(&ProbeRequest { id: 9, len: 3 }), vec![9, 0, 0]);
    assert_eq!(payload::probe_label(&cc), "get_feature_report(0xcc, 64 bytes)");
}

#[test]
fn commands_are_prepared() {
    let cli = Cli { cmd: Cmd::List, json: true };
    assert!(cli.json);
    assert!(matches!(cli.cmd.prepare(), Ok(Request::List)));
    assert!(matches!(Cmd::Scan.prepare(), Ok(Request::Scan)));
    assert!(matches!(Cmd::EneProbe.prepare(), Ok(Request::EneProbe)));
    match (Cmd::Descriptor { device: "d".to_string() }).prepare() {
        Ok(Request::Descriptor { device }) => assert_eq!(device, "d"),
        _ => panic!("not prepared"),
    }
    match (Cmd::RawWrite { device: "d".to_string(), payload: "0a".to_string() }).prepare() {
        Ok(Request::RawWrite { device, payload }) => assert_eq!((device.as_str(), payload), ("d", vec![10])),
        _ => panic!("not prepared"),
    }
    match (Cmd::Probe { device: "d".to_string(), report_id: "0x5a".to_string(), len: 17 }).prepare() {
        Ok(Request::Probe { report, .. }) => assert_eq!(report, ProbeRequest { id: 0x5a, len: 17 }),
        _ => panic!("not prepared"),
    }
    match (Cmd::Paint { color: "#010203".to_string(), device: Some("x".to_string()) }).prepare() {
        Ok(Request::Paint { color, device }) => {
            assert_eq!(color, Color { r: 1, g: 2, b: 3 });
            assert_eq!(device, Some("x".to_string()));
        }
        _ => panic!("not prepared"),
    }
}

#[test]
fn wrong_arguments_are_refused_first() {
    let paint = Cmd::Paint { color: "12345".to_string(), device: None };
    let e = paint.prepare().unwrap_err();
    assert_eq!(e, RequestError::BadColor(ColorParseError::BadLength));
    assert_eq!(e.to_string(), "parsing --color: hex color must be 6 digits (e.g. ff8800)");
    assert_eq!(e.context(), "parsing --color");
    assert_eq!(e.cause().unwrap(), "hex color must be 6 digits (e.g. ff8800)");
    let e = (Cmd::RawWrite { device: String::new(), payload: "1".to_string() }).prepare().unwrap_err();
    assert_eq!(e, RequestError::BadPayload(HexError::OddDigits));
    assert_eq!(e.to_string(), "hex payload must have an even number of digits");
    assert_eq!(e.cause(), None);
    let e = (Cmd::RawWrite { device: String::new(), payload: "aéb".to_string() }).prepare().unwrap_err();
    assert_eq!(e.to_string(), "invalid hex at byte 0: invalid digit found in string");
    let e = (Cmd::Probe { device: String::new(), report_id: "g".to_string(), len: 0 }).prepare().unwrap_err();
    assert_eq!(e, RequestError::BadProbe(ProbeError::BadReportId(DigitsError::InvalidDigit)));
    assert_eq!(
        e.to_string(),
        "--report-id must be hex like `cc` or `0xcc`: invalid digit found in string"
    );
    let e = (Cmd::Paint { color: "aäbcd".to_string(), device: None }).prepare().unwrap_err();
    assert_eq!(e, RequestError::BadColor(ColorParseError::BadHex));
}

#[test]
fn devices_are_listed_with_their_zones() {
    assert_eq!(show::run_list(&vec![]), vec!["No devices detected."]);
    assert_eq!(
        show::run_list(&vec![device("a", "k1"), device("b", "k2")]),
        vec![
            "a:k1  [Vendor]  Name of k1",
            "    zone all        (? LEDs)",
            "    zone a-long-zone-name (12 LEDs)",
            "b:k2  [Vendor]  Name of k2",
            "    zone all        (? LEDs)",
            "    zone a-long-zone-name (12 LEDs)",
        ]
    );
    assert_eq!(
        show::enumeration_warning("gigabyte-gpu", "no driver"),
        "warning: gigabyte-gpu enumeration failed: no driver"
    );
}

#[test]
fn collections_are_shown_in_columns() {
    let found = vec![
        HidInfo {
            vendor_id: 0x048D,
            product_id: 0x5702,
            usage_page: 0xFF89,
            usage: 0x00CC,
            interface: -1,
            manufacturer: Some("ITE Tech. Inc.".to_string()),
            product: None,
            path: "P".to_string(),
        },
        HidInfo {
            vendor_id: 1,
            product_id: 2,
            usage_page: 3,
            usage: 4,
            interface: 1000,
            manufacturer: None,
            product: Some("Thing".to_string()),
            path: "Q".to_string(),
        },
    ];
    let entries = show::scan_entries(&found);
    assert_eq!(entries[0].vid, "0x048d");
    assert_eq!(entries[0].usage_page, "0xff89");
    assert_eq!(entries[0].product, "");
    assert_eq!(entries[1].path, "Q");
    let lines = show::run_scan(&entries);
    assert_eq!(
        lines[0],
        format!(
            "{:<7} {:<7} {:<7} {:<7} {:<3} {:<24} {}",
            "VID", "PID", "UsgPg", "Usage", "If#", "Manufacturer", "Product"
        )
    );
    for (e, line) in entries.iter().zip(&lines[1..]) {
        assert_eq!(
            line,
            &format!(
                "{:<7} {:<7} {:<7} {:<7} {:<3} {:<24} {}",
                e.vid, e.pid, e.usage_page, e.usage, e.interface, e.manufacturer, e.product
            )
        );
    }
    assert_eq!(lines[1], "0x048d  0x5702  0xff89  0x00cc  -1  ITE Tech. Inc.           ");
}

#[test]
fn descriptors_are_shown_with_their_reports() {
    let mut desc = vec![0x85, 0xCC, 0x75, 0x08, 0x95, 0x3F, 0xB1, 0x02];
    desc.extend_from_slice(&[0x09; 10]);
    let reports = hid::parse_hid_descriptor_reports(&desc);
    assert_eq!(
        show::run_descriptor(&desc, &reports),
        vec![
            "raw descriptor (18 bytes):".to_string(),
            "  85 cc 75 08 95 3f b1 02 09 09 09 09 09 09 09 09".to_string(),
            "  09 09".to_string(),
            "".to_string(),
            format!("{:<7} {:<7} {:<10} {}", "Kind", "ID", "Bits", "Bytes"),
            format!("{:<7} {:#04x}   {:<10} {}", "Feature", 0xCC, 504, 63),
        ]
    );
    assert_eq!(show::raw_hex(&desc[..4]), "85cc7508");
    assert_eq!(show::raw_hex(&[]), "");
    assert_eq!(show::run_descriptor(&[], &vec![]).len(), 3);
    assert_eq!(show::descriptor_report(&desc), Some(show::run_descriptor(&desc, &reports)));
    assert_eq!(show::descriptor_report(&[]), Some(show::run_descriptor(&[], &vec![])));
    // A length that does not fit in 32 bits.
    assert_eq!(show::descriptor_report(&[0x77, 0, 0, 0, 0x80, 0x95, 0x02, 0x81, 0x02]), None);
}

#[test]
fn feature_reports_are_dumped() {
    let bytes: Vec<u8> = (0x1F..0x3F).chain([0x7E, 0x7F]).collect();
    let lines = show::run_probe(0xCC, &bytes, &device("a", "k").id);
    assert_eq!(lines[0], "got 34 bytes from feature report 0xcc on a:k:");
    assert_eq!(
        lines[1],
        "  1f 20 21 22 23 24 25 26 27 28 29 2a 2b 2c 2d 2e   |. !\"#$%&'()*+,-.|"
    );
    assert_eq!(lines[3], format!("  {:<48}  |~.|", "7e 7f"));
    assert_eq!(lines.len(), 4);
    assert_eq!(
        show::run_raw_write(&[1, 2, 3], &device("a", "k").id),
        "wrote 3 payload bytes to a:k"
    );
}

fn entry(addr: u8, values: &[(u16, Option<u8>)]) -> DiagEntry {
    let mut name = [0u8; 16];
    name[..4].copy_from_slice(b"AU\"1");
    DiagEntry { addr, name, v1_first: [0xff, 0x55, 0x01], v2_first: [1, 2, 3], dump: values.to_vec() }
}

#[test]
fn diagnostics_show_only_differences() {
    assert_eq!(
        ene_probe::run_ene_probe(&vec![]),
        vec!["No ENE controllers detected on SMBus."]
    );
    let entries = vec![
        entry(0x39, &[(0x10, Some(1)), (0x11, Some(2)), (0x8020, None), (0x8021, None)]),
        entry(0x3A, &[(0x10, Some(1)), (0x11, Some(3)), (0x8020, Some(9)), (0x8021, None)]),
    ];
    let lines = ene_probe::run_ene_probe(&entries);
    assert_eq!(
        lines,
        vec![
            "0x39:",
            "  name (ascii): \"AU\"1............\"",
            "  name (hex):   41 55 22 31 00 00 00 00 00 00 00 00 00 00 00 00",
            "  effect-color LED0 (0x8010): R=ff G=01 B=55",
            "  effect-color V2 LED0 (0x8160): R=01 G=03 B=02",
            "0x3a:",
            "  name (ascii): \"AU\"1............\"",
            "  name (hex):   41 55 22 31 00 00 00 00 00 00 00 00 00 00 00 00",
            "  effect-color LED0 (0x8010): R=ff G=01 B=55",
            "  effect-color V2 LED0 (0x8160): R=01 G=03 B=02",
            "",
            "== cross-DIMM register diff ==",
            "(only registers where at least one DIMM differs from the first are shown; `--` = read failed)",
            "reg      0x39    0x3a",
            "0x0011   02      03",
            "0x8020   --      09",
        ]
    );
}

#[test]
fn one_controller_differs_from_nothing() {
    let lines = ene_probe::run_ene_probe(&vec![entry(0x39, &[(0x10, Some(1)), (0x11, None)])]);
    assert_eq!(lines.len(), 10);
    assert_eq!(lines[9], "(no register in the scanned ranges differs across DIMMs)");
}

fn result(id: &str, error: Option<&str>) -> SetResult {
    SetResult { id: id.to_string(), error: error.map(|e| e.to_string()) }
}

#[test]
fn results_have_a_line_each() {
    let report = results::run_set(&vec![result("a:1", None), result("b:2", None)], None, false);
    assert_eq!(report.lines, vec!["ok    a:1", "ok    b:2"]);
    assert!(report.failure.is_none());
    let report = results::run_set(&vec![result("a:1", Some("no bus")), result("b:2", None)], Some("x"), false);
    assert_eq!(report.lines, vec!["error a:1  no bus", "ok    b:2"]);
    let failure = report.failure.unwrap();
    assert!(matches!(failure, SetFailure::SomeFailed));
    assert_eq!(failure.to_string(), "one or more devices failed to update");
}

#[test]
fn nothing_to_paint_is_a_failure() {
    for as_json in [false, true] {
        let report = results::run_set(&vec![], Some("zz"), as_json);
        assert!(report.lines.is_empty());
        assert_eq!(report.failure.unwrap().to_string(), "no device matched `zz`");
        let report = results::run_set(&vec![], None, as_json);
        assert!(matches!(report.failure, Some(SetFailure::NoDevices)));
        assert_eq!(report.failure.unwrap().to_string(), "no devices detected");
    }
}

#[test]
fn results_as_json() {
    let list = vec![result("a:1", None), result("b:\"2\"", Some("no\nbus"))];
    let report = results::run_set(&list, None, true);
    assert_eq!(report.lines.len(), 1);
    let value: serde_json::Value = serde_json::from_str(&report.lines[0]).unwrap();
    assert_eq!(value[0]["device"], "a:1");
    assert_eq!(value[0]["ok"], true);
    assert!(value[0]["error"].is_null());
    assert_eq!(value[1]["device"], "b:\"2\"");
    assert_eq!(value[1]["ok"], false);
    assert_eq!(value[1]["error"], "no\nbus");
    assert_eq!(value.as_array().unwrap().len(), 2);
    assert_eq!(value[0].as_object().unwrap().len(), 3);
    assert!(matches!(report.failure, Some(SetFailure::SomeFailed)));
    assert_eq!(
        results::results_json(&vec![result("a:1", None)]),
        "[\n  {\n    \"device\": \"a:1\",\n    \"error\": null,\n    \"ok\": true\n  }\n]"
    );
}

#[test]
fn json_is_shown_as_it_was_written() {
    let report = results::set_report(&vec![result("a:1", None)], None, true, "[]".to_string());
    assert_eq!(report.lines, vec!["[]"]);
    assert!(report.failure.is_none());
    let list = vec![result("a:1", Some("broken"))];
    let report = results::set_report(&list, None, true, "[1]".to_string());
    assert_eq!(report.lines, vec!["[1]"]);
    assert!(matches!(report.failure, Some(SetFailure::SomeFailed)));
    let report = results::set_report(&vec![], None, true, "[]".to_string());
    assert!(report.lines.is_empty());
    assert!(matches!(report.failure, Some(SetFailure::NoDevices)));
    let report = results::set_report(&list, None, false, "[1]".to_string());
    assert_eq!(report.lines, vec!["error a:1  broken"]);
}

/// Runs a painting in which only `a:k1` fails; gives the steps and the lines of the report.
fn paint(filter: Option<&str>, listing: &dyn Fn(usize) -> Option<Vec<Device>>) -> (Vec<String>, Vec<String>) {
    let mut session = SetSession::start(filter);
    let mut order = Vec::new();
    assert!(session.results().is_none());
    loop {
        match session.due() {
            SetStep::Enumerate { backend } => {
                order.push(format!("ask {}", backend));
                session.enumerated(listing(backend));
            }
            SetStep::Paint { backend } => {
                let id = session.current().id.to_string();
                order.push(format!("paint {} {}", backend, id));
                session.painted(if id == "a:k1" { Some("broken".to_string()) } else { None });
            }
            SetStep::Finish => break,
        }
    }
    (order, results::run_set(session.results().unwrap(), filter, false).lines)
}

fn three_backends(backend: usize) -> Option<Vec<Device>> {
    match backend {
        0 => Some(vec![device("a", "k1"), device("a", "skip"), device("a", "k2")]),
        1 => None,
        _ => Some(vec![device("c", "k3")]),
    }
}

#[test]
fn every_selected_device_is_painted_once() {
    let (order, lines) = paint(Some(":k"), &three_backends);
    assert_eq!(
        order,
        vec!["ask 0", "paint 0 a:k1", "paint 0 a:k2", "ask 1", "ask 2", "paint 2 c:k3"]
    );
    assert_eq!(lines, vec!["error a:k1  broken", "ok    a:k2", "ok    c:k3"]);
}

#[test]
fn without_a_filter_every_device_is_painted_backend_by_backend() {
    let (order, lines) = paint(None, &three_backends);
    assert_eq!(
        order,
        vec![
            "ask 0",
            "paint 0 a:k1",
            "paint 0 a:skip",
            "paint 0 a:k2",
            "ask 1",
            "ask 2",
            "paint 2 c:k3"
        ]
    );
    assert_eq!(lines.len(), 4);
}

#[test]
fn a_whole_id_paints_its_device_alone() {
    let listing = |backend: usize| match backend {
        // An id of another backend contains the whole id.
        0 => Some(vec![device("gigabyte-mobo", "x#gigabyte-gpu:nvapi-1")]),
        1 => Some(vec![device("gigabyte-gpu", "nvapi-10"), device("gigabyte-gpu", "nvapi-1")]),
        _ => Some(vec![device("gskill-ddr5", "y#gigabyte-gpu:nvapi-1")]),
    };
    let (order, lines) = paint(Some("gigabyte-gpu:nvapi-1"), &listing);
    assert_eq!(order, vec!["ask 0", "ask 1", "paint 1 gigabyte-gpu:nvapi-1", "ask 2"]);
    assert_eq!(lines, vec!["ok    gigabyte-gpu:nvapi-1"]);
}

#[test]
fn only_what_may_be_a_whole_id_waits() {
    let listing = |backend: usize| match backend {
        0 => Some(vec![device("gigabyte-mobo", "x#gigabyte-gpu:nvapi-1")]),
        1 => Some(vec![device("gigabyte-gpu", "nvapi-10"), device("gigabyte-gpu", "other")]),
        _ => Some(vec![device("gskill-ddr5", "y#gigabyte-gpu:nvapi-1")]),
    };
    // It begins like an id of the second backend and turns out to be a part of ids.
    let (order, lines) = paint(Some("gigabyte-gpu:nvapi-1"), &listing);
    assert_eq!(
        order,
        vec![
            "ask 0",
            "ask 1",
            "paint 0 gigabyte-mobo:x#gigabyte-gpu:nvapi-1",
            "paint 1 gigabyte-gpu:nvapi-10",
            "ask 2",
            "paint 2 gskill-ddr5:y#gigabyte-gpu:nvapi-1"
        ]
    );
    assert_eq!(lines.len(), 3);
    // It begins with no backend's name.
    let (order, lines) = paint(Some("gpu:nvapi-1"), &listing);
    assert_eq!(
        order,
        vec![
            "ask 0",
            "paint 0 gigabyte-mobo:x#gigabyte-gpu:nvapi-1",
            "ask 1",
            "paint 1 gigabyte-gpu:nvapi-10",
            "ask 2",
            "paint 2 gskill-ddr5:y#gigabyte-gpu:nvapi-1"
        ]
    );
    assert_eq!(lines.len(), 3);
    // It may be an id of the first backend only, which is asked first.
    let (order, _) = paint(Some("gigabyte-mobo:x"), &listing);
    assert_eq!(
        order,
        vec!["ask 0", "paint 0 gigabyte-mobo:x#gigabyte-gpu:nvapi-1", "ask 1", "ask 2"]
    );
}

#[test]
fn a_listed_module_is_found_by_its_written_id() {
    let devices = GSkillDdr5::new().enumerate(&Some(vec![0x39, 0x3A]));
    for d in &devices {
        let id = d.id.to_string();
        assert_eq!(select::resolve_device(&devices, &id).unwrap().id.key, d.id.key);
        assert_eq!(select::resolve_id(&devices, &id).unwrap().id.key, d.id.key);
    }
}
