use lightshow::backend::{Backend, Color, ColorParseError, Device, DeviceId, SetError};
use lightshow::backends;
use lightshow::backends::gigabyte_gpu::GigabyteGpu;
use lightshow::backends::gigabyte_mobo::GigabyteMobo;
use lightshow::backends::gskill_ddr5::GSkillDdr5;

fn device(backend: &'static str, key: &str) -> Device {
    Device {
        id: DeviceId { backend, key: key.to_string() },
        vendor: "V",
        name: "N".to_string(),
        zones: vec![],
    }
}

#[test]
fn colors_are_read() {
    let orange = Color { r: 0xff, g: 0x88, b: 0x00 };
    assert_eq!(Color::from_hex("ff8800"), Ok(orange));
    assert_eq!(Color::from_hex("#ff8800"), Ok(orange));
    assert_eq!(Color::from_hex("FF8800"), Ok(orange));
    assert_eq!(Color::from_hex("#Ff8800"), Ok(orange));
}

#[test]
fn wrong_colors_are_refused() {
    for s in ["", "#", "fff", "ff88000", "##ff8800"] {
        assert_eq!(Color::from_hex(s), Err(ColorParseError::BadLength), "{:?}", s);
    }
    for s in ["gg8800", "ff 800", "ff88-1", "##ff880", "+1+2+3", "+f+0+1", "#+12233"] {
        assert_eq!(Color::from_hex(s), Err(ColorParseError::BadHex), "{:?}", s);
    }
    // Six bytes, but not six digits, wherever the characters begin.
    for s in ["äöü", "aäbcd", "1é234", "#1é234"] {
        assert_eq!(Color::from_hex(s), Err(ColorParseError::BadHex), "{:?}", s);
    }
    assert_eq!(Color::from_hex("aäbc"), Err(ColorParseError::BadLength));
}

#[test]
fn color_errors_say_what_is_wrong() {
    assert_eq!(ColorParseError::BadLength.to_string(), "hex color must be 6 digits (e.g. ff8800)");
    assert_eq!(ColorParseError::BadHex.to_string(), "invalid hex digit");
}

#[test]
fn written_colors_read_back() {
    for color in [
        Color { r: 0, g: 0, b: 0 },
        Color { r: 1, g: 0xAB, b: 0xFF },
        Color { r: 0x7F, g: 0x80, b: 0x0F },
    ] {
        let lower = format!("{:02x}{:02x}{:02x}", color.r, color.g, color.b);
        assert_eq!(Color::from_hex(&lower), Ok(color));
        assert_eq!(Color::from_hex(&lower.to_uppercase()), Ok(color));
        assert_eq!(Color::from_hex(&format!("#{}", lower)), Ok(color));
    }
}

#[test]
fn ids_are_backend_and_key() {
    assert_eq!(device("gskill-ddr5", "ene-0x39").id.to_string(), "gskill-ddr5:ene-0x39");
    let a = device("gigabyte-gpu", "nvapi-1").id.to_string();
    let b = device("gigabyte-gpu", "nvapi-2").id.to_string();
    assert_ne!(a, b);
}

#[test]
fn all_backends_in_their_order() {
    let names: Vec<&str> = backends::all().iter().map(|b| b.name()).collect();
    assert_eq!(names, vec!["gigabyte-mobo", "gigabyte-gpu", "gskill-ddr5"]);
    for n in &names {
        assert!(!n.contains(':'));
    }
}

#[test]
fn backends_refuse_foreign_devices() {
    let color = Color { r: 1, g: 2, b: 3 };
    let foreign = device("other", "k");
    match GigabyteMobo::new().set_static(&foreign, color) {
        Err(SetError::WrongBackend(m)) => {
            assert_eq!(m, "device other:k is not a Gigabyte RGB Fusion 2 device")
        }
        _ => panic!("not refused"),
    }
    match GigabyteGpu::new().set_static(&foreign, color) {
        Err(SetError::WrongBackend(m)) => assert_eq!(m, "device other:k is not a Gigabyte GPU device"),
        _ => panic!("not refused"),
    }
    match GSkillDdr5::new().set_static(&foreign, color) {
        Err(e) => assert_eq!(e.to_string(), "device other:k is not a G.Skill DDR5 device"),
        _ => panic!("not refused"),
    }
}
