//! Colors, devices, and what a backend offers.

use crate::text;
use vstd::prelude::*;

verus! {

/// A color, one byte per channel.
#[derive(Debug, Clone, Copy, PartialEq, Eq, Structural, Hash)]
pub struct Color {
    pub r: u8,
    pub g: u8,
    pub b: u8,
}

/// Why a text is not a color.
#[derive(Debug, Clone, Copy, PartialEq, Eq, Structural)]
pub enum ColorParseError {
    BadLength,
    BadHex,
}

/// What follows a leading `#`, if there is one.
pub open spec fn color_digits(s: Seq<char>) -> Seq<char> {
    if s.len() > 0 && s[0] == '#' {
        s.skip(1)
    } else {
        s
    }
}

/// The color that a text stands for: six hexadecimal digits, two per channel, after an
/// optional `#`.
pub open spec fn parsed_color(s: Seq<char>) -> Result<Color, ColorParseError> {
    let bytes = text::utf8(color_digits(s));
    if bytes.len() != 6 {
        Err(ColorParseError::BadLength)
    } else {
        match (text::hex_pair(bytes, 0), text::hex_pair(bytes, 2), text::hex_pair(bytes, 4)) {
            (Some(r), Some(g), Some(b)) => Ok(Color { r: r as u8, g: g as u8, b: b as u8 }),
            _ => Err(ColorParseError::BadHex),
        }
    }
}

/// What follows a leading `#`, if there is one.
fn strip_hash(s: &str) -> (digits: String)
    ensures
        digits@ == color_digits(s@),
{
    let chars = text::chars_of(s);
    let mut digits = String::new();
    let first: usize = if chars.len() > 0 && chars[0] == '#' {
        1
    } else {
        0
    };
    let mut i: usize = first;
    while i < chars.len()
        invariant
            first <= i <= chars@.len(),
            digits@ == chars@.subrange(first as int, i as int),
        decreases chars@.len() - i,
    {
        digits.push(chars[i]);
        i += 1;
        assert(digits@ =~= chars@.subrange(first as int, i as int));
    }
    assert(digits@ =~= color_digits(s@));
    digits
}

impl Color {
    /// Reads a color such as `ff8800` or `#ff8800`.
    pub fn from_hex(s: &str) -> (r: Result<Color, ColorParseError>)
        ensures
            r == parsed_color(s@),
    {
        let digits = strip_hash(s);
        let bytes = digits.as_str().as_bytes();
        if bytes.len() != 6 {
            return Err(ColorParseError::BadLength);
        }
        let r: u8 = match text::read_hex_pair(bytes, 0) {
            Some(v) => v,
            None => {
                return Err(ColorParseError::BadHex);
            },
        };
        let g: u8 = match text::read_hex_pair(bytes, 2) {
            Some(v) => v,
            None => {
                return Err(ColorParseError::BadHex);
            },
        };
        let b: u8 = match text::read_hex_pair(bytes, 4) {
            Some(v) => v,
            None => {
                return Err(ColorParseError::BadHex);
            },
        };
        Ok(Color { r, g, b })
    }
}

/// The color as six hexadecimal digits.
pub open spec fn color_text(color: Color, upper: bool) -> Seq<char> {
    text::hex_text(color.r as nat, 2, upper) + text::hex_text(color.g as nat, 2, upper)
        + text::hex_text(color.b as nat, 2, upper)
}

/// A color written as six hexadecimal digits, of either case, reads back as that color, with a
/// `#` in front or without.
pub proof fn law_written_color_reads_back(color: Color, upper: bool)
    ensures
        parsed_color(color_text(color, upper)) == Ok::<Color, ColorParseError>(color),
        parsed_color("#"@ + color_text(color, upper)) == Ok::<Color, ColorParseError>(color),
{
    reveal_strlit("#");
    let digits = color_text(color, upper);
    text::lemma_hex_len(color.r as nat, 2, upper);
    text::lemma_hex_len(color.g as nat, 2, upper);
    text::lemma_hex_len(color.b as nat, 2, upper);
    assert(("#"@ + digits).skip(1) =~= digits);
    text::lemma_hex_digits(color.r as nat, 2, upper);
    text::lemma_hex_digits(color.g as nat, 2, upper);
    text::lemma_hex_digits(color.b as nat, 2, upper);
    text::lemma_ascii_pairs(digits, 0);
    text::lemma_ascii_pairs(digits, 2);
    text::lemma_ascii_pairs(digits, 4);
    reveal_with_fuel(text::hex_capacity, 3);
    text::law_hex_digits_read_back(color.r as nat, 2, upper, 255);
    text::law_hex_digits_read_back(color.g as nat, 2, upper, 255);
    text::law_hex_digits_read_back(color.b as nat, 2, upper, 255);
    assert(digits.subrange(0, 2) =~= text::hex_text(color.r as nat, 2, upper));
    assert(digits.subrange(2, 4) =~= text::hex_text(color.g as nat, 2, upper));
    assert(digits.subrange(4, 6) =~= text::hex_text(color.b as nat, 2, upper));
    assert(digits[0] != '#') by {
        assert(digits[0] == digits.subrange(0, 2)[0]);
        assert(text::digit_value(digits.subrange(0, 2)[0]) < 16);
    }
}

/// A leading `#` makes no difference, unless the rest begins with another one.
pub proof fn law_hash_is_optional(s: Seq<char>)
    requires
        s.len() == 0 || s[0] != '#',
    ensures
        parsed_color("#"@ + s) == parsed_color(s),
{
    reveal_strlit("#");
    assert(("#"@ + s).skip(1) =~= s);
}

/// What is said of a text that is not a color.
pub open spec fn color_error_text(e: ColorParseError) -> Seq<char> {
    match e {
        ColorParseError::BadLength => "hex color must be 6 digits (e.g. ff8800)"@,
        ColorParseError::BadHex => "invalid hex digit"@,
    }
}

impl ColorParseError {
    /// What is said of the text.
    pub fn to_string(&self) -> (message: String)
        ensures
            message@ == color_error_text(*self),
    {
        match *self {
            ColorParseError::BadLength => "hex color must be 6 digits (e.g. ff8800)".to_owned(),
            ColorParseError::BadHex => "invalid hex digit".to_owned(),
        }
    }
}

// ---------------------------------------------------------------------------
// Devices
// ---------------------------------------------------------------------------

/// A part of a device that can be lit. An LED count of zero stands for an unknown count.
#[derive(Debug, Clone)]
pub struct Zone {
    pub name: String,
    pub led_count: u32,
}

/// A device that can be lit.
#[derive(Debug, Clone)]
pub struct Device {
    pub id: DeviceId,
    pub vendor: &'static str,
    pub name: String,
    pub zones: Vec<Zone>,
}

/// What names a device: its backend, and a key that the backend can find it by.
#[derive(Debug, Clone)]
pub struct DeviceId {
    pub backend: &'static str,
    pub key: String,
}

/// A `Zone` as mathematical values.
pub struct ZoneView {
    pub name: Seq<char>,
    pub led_count: nat,
}

/// A `Device` as mathematical values.
pub struct DeviceView {
    pub id: DeviceIdView,
    pub vendor: Seq<char>,
    pub name: Seq<char>,
    pub zones: Seq<ZoneView>,
}

/// A `DeviceId` as mathematical values.
pub struct DeviceIdView {
    pub backend: Seq<char>,
    pub key: Seq<char>,
}

impl View for Zone {
    type V = ZoneView;

    open spec fn view(&self) -> ZoneView {
        ZoneView { name: self.name@, led_count: self.led_count as nat }
    }
}

impl View for DeviceId {
    type V = DeviceIdView;

    open spec fn view(&self) -> DeviceIdView {
        DeviceIdView { backend: self.backend@, key: self.key@ }
    }
}

impl View for Device {
    type V = DeviceView;

    open spec fn view(&self) -> DeviceView {
        DeviceView {
            id: self.id@,
            vendor: self.vendor@,
            name: self.name@,
            zones: self.zones@.map_values(|z: Zone| z@),
        }
    }
}

/// The devices of a list, as mathematical values.
pub open spec fn device_views(list: Seq<Device>) -> Seq<DeviceView> {
    list.map_values(|d: Device| d@)
}

/// A device id as it is written: backend and key with a colon between them.
pub open spec fn id_text(id: DeviceIdView) -> Seq<char> {
    id.backend + ":"@ + id.key
}

impl DeviceId {
    /// The id as it is written: backend and key with a colon between them.
    pub fn to_string(&self) -> (s: String)
        ensures
            s@ == id_text(self@),
    {
        let mut s = self.backend.to_owned();
        s.append(":");
        s.append(self.key.as_str());
        s
    }
}

/// Written ids tell devices apart, as long as no backend has a colon in its name: the same
/// text stands for the same backend and the same key.
pub proof fn law_ids_tell_devices_apart(a: DeviceIdView, b: DeviceIdView)
    requires
        id_text(a) == id_text(b),
        !a.backend.contains(':'),
        !b.backend.contains(':'),
    ensures
        a.backend == b.backend,
        a.key == b.key,
{
    reveal_strlit(":");
    let text = id_text(a);
    let n = a.backend.len() as int;
    let m = b.backend.len() as int;
    assert(text[n] == ':');
    assert(text[m] == ':');
    if n < m {
        assert(b.backend[n] == ':');
    } else if m < n {
        assert(a.backend[m] == ':');
    }
    assert(a.backend =~= text.take(n));
    assert(b.backend =~= text.take(n));
    assert(a.key =~= text.skip(n + 1));
    assert(b.key =~= text.skip(n + 1));
}

/// The one zone that the backends report: everything, with an unknown number of LEDs.
pub open spec fn whole_device() -> Seq<ZoneView> {
    seq![ZoneView { name: "all"@, led_count: 0 }]
}

/// The one zone that the backends report: everything, with an unknown number of LEDs.
pub fn whole_device_zones() -> (zones: Vec<Zone>)
    ensures
        zones@.map_values(|z: Zone| z@) == whole_device(),
{
    let zones = vec![Zone { name: "all".to_owned(), led_count: 0 }];
    assert(zones@.map_values(|z: Zone| z@) =~= whole_device());
    zones
}

// ---------------------------------------------------------------------------
// Backends
// ---------------------------------------------------------------------------

/// Why a backend does not light a device. Each carries what is said of it.
#[derive(Debug)]
pub enum SetError {
    /// The device belongs to another backend.
    WrongBackend(String),
    /// The device's key is not one that the backend gives out.
    MalformedKey(String),
}

impl SetError {
    /// What is said of the refusal.
    pub open spec fn message(&self) -> Seq<char> {
        match *self {
            SetError::WrongBackend(message) => message@,
            SetError::MalformedKey(message) => message@,
        }
    }

    /// What is said of the refusal.
    pub fn to_string(&self) -> (s: String)
        ensures
            s@ == self.message(),
    {
        match self {
            SetError::WrongBackend(message) => message.clone(),
            SetError::MalformedKey(message) => message.clone(),
        }
    }
}

/// What is said of a device that belongs to another backend.
pub open spec fn wrong_backend_text(id: DeviceIdView, kind: Seq<char>) -> Seq<char> {
    "device "@ + id_text(id) + " is not "@ + kind
}

/// What is said of a device that belongs to another backend.
pub fn wrong_backend(id: &DeviceId, kind: &str) -> (message: String)
    ensures
        message@ == wrong_backend_text(id@, kind@),
{
    let mut message = "device ".to_owned();
    message.append(id.to_string().as_str());
    message.append(" is not ");
    message.append(kind);
    message
}

/// A family of devices. A backend turns what its transport reports into devices, and a color
/// into what has to be sent to a device; the sending is done elsewhere.
pub trait Backend: Sized {
    /// What the transport reports.
    type Found;

    /// What has to be sent.
    type Plan: View;

    /// The backend's name.
    spec fn label(&self) -> Seq<char>;

    /// What a device of this backend is called in messages.
    spec fn kind(&self) -> Seq<char>;

    /// The devices among what the transport reports.
    spec fn devices_in(&self, found: Self::Found) -> Seq<DeviceView>;

    /// What paints the device with the given key one static color, if the key is well formed.
    spec fn plan_for(&self, key: Seq<char>, color: Color) -> Option<<Self::Plan as View>::V>;

    /// What is said of a key that is not well formed.
    spec fn malformed_text(&self, key: Seq<char>) -> Seq<char>;

    /// Every device that is enumerated carries the backend's name and a well-formed key: it
    /// can be painted.
    proof fn law_enumerated_devices_can_be_painted(&self, found: Self::Found, color: Color, i: int)
        requires
            0 <= i < self.devices_in(found).len(),
        ensures
            self.devices_in(found)[i].id.backend == self.label(),
            self.plan_for(self.devices_in(found)[i].id.key, color) is Some,
    ;

    /// The backend's name.
    fn name(&self) -> (n: &'static str)
        ensures
            n@ == self.label(),
    ;

    /// The devices among what the transport reports.
    fn enumerate(&self, found: &Self::Found) -> (list: Vec<Device>)
        ensures
            device_views(list@) == self.devices_in(*found),
    ;

    /// What paints a device one static color.
    fn set_static(&self, device: &Device, color: Color) -> (r: Result<Self::Plan, SetError>)
        ensures
            r is Ok <==> device@.id.backend == self.label() && self.plan_for(
                device@.id.key,
                color,
            ) is Some,
            r matches Ok(plan) ==> self.plan_for(device@.id.key, color) == Some(plan@),
            r matches Err(e) ==> {
                &&& e is WrongBackend <==> device@.id.backend != self.label()
                &&& e is WrongBackend ==> e.message() == wrong_backend_text(device@.id, self.kind())
                &&& e is MalformedKey ==> e.message() == self.malformed_text(device@.id.key)
            },
    ;
}

} // verus!
