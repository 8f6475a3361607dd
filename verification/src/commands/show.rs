//! What is shown of devices, HID collections, report descriptors and feature reports. Each
//! function gives the lines to print.

use crate::backend::{self, Device, DeviceId, DeviceIdView, DeviceView, Zone, ZoneView};
use crate::hid::{self, HidInfo, ReportInfo, ReportView};
use crate::text;
use vstd::prelude::*;

verus! {

// ---------------------------------------------------------------------------
// Rows of bytes
// ---------------------------------------------------------------------------

/// The bytes as pairs of hexadecimal digits.
pub open spec fn hex_cells(bytes: Seq<u8>) -> Seq<Seq<char>> {
    bytes.map_values(|b: u8| text::hex_text(b as nat, 2, false))
}

/// The bytes as characters, with a dot for each that cannot be printed.
pub open spec fn ascii_of(bytes: Seq<u8>) -> Seq<char> {
    bytes.map_values(|b: u8| text::printable(b))
}

/// How many rows of sixteen the bytes make; the last may be shorter.
pub open spec fn row_count(bytes: Seq<u8>) -> nat {
    (bytes.len() + 15) / 16
}

/// A row of sixteen bytes.
pub open spec fn row(bytes: Seq<u8>, k: int) -> Seq<u8> {
    bytes.subrange(
        16 * k,
        if 16 * k + 16 <= bytes.len() {
            16 * k + 16
        } else {
            bytes.len() as int
        },
    )
}

/// The bytes from `from` up to `to` as pairs of hexadecimal digits.
pub fn cells_of(bytes: &[u8], from: usize, to: usize) -> (cells: Vec<String>)
    requires
        from <= to <= bytes@.len(),
    ensures
        text::texts(cells@) == hex_cells(bytes@.subrange(from as int, to as int)),
{
    let ghost all = hex_cells(bytes@.subrange(from as int, to as int));
    let mut cells: Vec<String> = Vec::new();
    let mut i: usize = from;
    assert(text::texts(cells@) =~= all.take(0));
    while i < to
        invariant
            from <= i <= to <= bytes@.len(),
            all == hex_cells(bytes@.subrange(from as int, to as int)),
            text::texts(cells@) == all.take(i - from),
        decreases to - i,
    {
        let mut cell = String::new();
        text::push_hex(&mut cell, bytes[i] as u32, 2, false);
        let ghost before = text::texts(cells@);
        cells.push(cell);
        assert(cell@ =~= all[i - from]);
        assert(text::texts(cells@) =~= before.push(cell@));
        i += 1;
        assert(text::texts(cells@) =~= all.take(i - from));
    }
    assert(all.take(i - from) =~= all);
    cells
}

/// Appends the bytes from `from` up to `to` as characters.
pub fn push_ascii(out: &mut String, bytes: &[u8], from: usize, to: usize)
    requires
        from <= to <= bytes@.len(),
    ensures
        final(out)@ == old(out)@ + ascii_of(bytes@.subrange(from as int, to as int)),
{
    let ghost start = out@;
    let ghost all = ascii_of(bytes@.subrange(from as int, to as int));
    let mut i: usize = from;
    assert(start + all.take(0) =~= start);
    while i < to
        invariant
            from <= i <= to <= bytes@.len(),
            all == ascii_of(bytes@.subrange(from as int, to as int)),
            out@ == start + all.take(i - from),
        decreases to - i,
    {
        let b: u8 = bytes[i];
        let c: char = if 0x20 <= b && b < 0x7f {
            b as char
        } else {
            '.'
        };
        out.push(c);
        assert(c == all[i - from]);
        i += 1;
        assert(out@ =~= start + all.take(i - from));
    }
    assert(all.take(i - from) =~= all);
}

// ---------------------------------------------------------------------------
// Devices
// ---------------------------------------------------------------------------

/// The line of a zone: its name, and its number of LEDs or a question mark.
pub open spec fn zone_line(z: ZoneView) -> Seq<char> {
    "    zone "@ + text::padded(z.name, 10) + " ("@ + (if z.led_count == 0 {
        "?"@
    } else {
        text::decimal_text(z.led_count)
    }) + " LEDs)"@
}

/// The first line of a device: its id, its vendor and its name.
pub open spec fn device_line(d: DeviceView) -> Seq<char> {
    backend::id_text(d.id) + "  ["@ + d.vendor + "]  "@ + d.name
}

/// The lines of a device: its own, then one for each zone.
pub open spec fn device_lines(d: DeviceView) -> Seq<Seq<char>> {
    seq![device_line(d)] + d.zones.map_values(|z: ZoneView| zone_line(z))
}

/// The lines of devices, one after another.
pub open spec fn devices_lines(devices: Seq<DeviceView>) -> Seq<Seq<char>>
    decreases devices.len(),
{
    if devices.len() == 0 {
        Seq::empty()
    } else {
        devices_lines(devices.drop_last()) + device_lines(devices.last())
    }
}

/// What is listed: the devices, or that there are none.
pub open spec fn list_lines(devices: Seq<DeviceView>) -> Seq<Seq<char>> {
    if devices.len() == 0 {
        seq!["No devices detected."@]
    } else {
        devices_lines(devices)
    }
}

/// The line of a zone.
fn show_zone(z: &Zone) -> (line: String)
    ensures
        line@ == zone_line(z@),
{
    let mut line = "    zone ".to_owned();
    text::push_padded(&mut line, z.name.as_str(), 10);
    line.append(" (");
    if z.led_count == 0 {
        line.append("?");
    } else {
        text::push_decimal(&mut line, z.led_count as u64);
    }
    line.append(" LEDs)");
    line
}

/// The first line of a device.
fn show_device(d: &Device) -> (line: String)
    ensures
        line@ == device_line(d@),
{
    let mut line = d.id.to_string();
    line.append("  [");
    line.append(d.vendor);
    line.append("]  ");
    line.append(d.name.as_str());
    line
}

/// Appends the lines of a device.
fn push_device(lines: &mut Vec<String>, d: &Device)
    ensures
        text::texts(final(lines)@) == text::texts(old(lines)@) + device_lines(d@),
{
    let ghost start = text::texts(lines@);
    let ghost all = device_lines(d@);
    lines.push(show_device(d));
    assert(text::texts(lines@) =~= start + all.take(1));
    let mut k: usize = 0;
    while k < d.zones.len()
        invariant
            k <= d.zones@.len(),
            all == device_lines(d@),
            text::texts(lines@) == start + all.take(k + 1),
        decreases d.zones@.len() - k,
    {
        let ghost before = text::texts(lines@);
        lines.push(show_zone(&d.zones[k]));
        assert(text::texts(lines@) =~= before.push(lines@.last()@));
        assert(lines@.last()@ == all[k + 1]);
        k += 1;
        assert(text::texts(lines@) =~= start + all.take(k + 1));
    }
    assert(all.take(k + 1) =~= all);
}

/// What is listed: the devices with their zones, or that there are none.
pub fn run_list(devices: &Vec<Device>) -> (lines: Vec<String>)
    ensures
        text::texts(lines@) == list_lines(backend::device_views(devices@)),
{
    let mut lines: Vec<String> = Vec::new();
    if devices.len() == 0 {
        lines.push("No devices detected.".to_owned());
        assert(text::texts(lines@) =~= seq!["No devices detected."@]);
        return lines;
    }
    let ghost all = backend::device_views(devices@);
    let mut i: usize = 0;
    assert(text::texts(lines@) =~= devices_lines(all.take(0)));
    while i < devices.len()
        invariant
            i <= devices@.len(),
            all == backend::device_views(devices@),
            text::texts(lines@) == devices_lines(all.take(i as int)),
        decreases devices@.len() - i,
    {
        push_device(&mut lines, &devices[i]);
        assert(all.take(i + 1).drop_last() =~= all.take(i as int));
        i += 1;
    }
    assert(all.take(i as int) =~= all);
    lines
}

/// What is said when the devices of a backend cannot be listed.
pub fn enumeration_warning(backend: &str, error: &str) -> (line: String)
    ensures
        line@ == "warning: "@ + backend@ + " enumeration failed: "@ + error@,
{
    let mut line = "warning: ".to_owned();
    line.append(backend);
    line.append(" enumeration failed: ");
    line.append(error);
    line
}

// ---------------------------------------------------------------------------
// HID collections
// ---------------------------------------------------------------------------

/// A HID collection, as it is shown.
#[derive(Debug)]
pub struct ScanEntry {
    pub vid: String,
    pub pid: String,
    pub usage_page: String,
    pub usage: String,
    pub interface: i32,
    pub manufacturer: String,
    pub product: String,
    pub path: String,
}

/// A `ScanEntry` as mathematical values.
pub struct ScanEntryView {
    pub vid: Seq<char>,
    pub pid: Seq<char>,
    pub usage_page: Seq<char>,
    pub usage: Seq<char>,
    pub interface: int,
    pub manufacturer: Seq<char>,
    pub product: Seq<char>,
    pub path: Seq<char>,
}

impl View for ScanEntry {
    type V = ScanEntryView;

    open spec fn view(&self) -> ScanEntryView {
        ScanEntryView {
            vid: self.vid@,
            pid: self.pid@,
            usage_page: self.usage_page@,
            usage: self.usage@,
            interface: self.interface as int,
            manufacturer: self.manufacturer@,
            product: self.product@,
            path: self.path@,
        }
    }
}

/// A 16-bit number as `0x` and four hexadecimal digits.
pub open spec fn hex16(v: u16) -> Seq<char> {
    "0x"@ + text::hex_text(v as nat, 4, false)
}

/// The text, or an empty one where it is missing.
pub open spec fn or_empty(s: Option<String>) -> Seq<char> {
    match s {
        Some(text) => text@,
        None => Seq::empty(),
    }
}

/// A collection, as it is shown.
pub open spec fn entry_of(info: HidInfo) -> ScanEntryView {
    ScanEntryView {
        vid: hex16(info.vendor_id),
        pid: hex16(info.product_id),
        usage_page: hex16(info.usage_page),
        usage: hex16(info.usage),
        interface: info.interface as int,
        manufacturer: or_empty(info.manufacturer),
        product: or_empty(info.product),
        path: info.path@,
    }
}

/// The entries of a list, as mathematical values.
pub open spec fn scan_views(list: Seq<ScanEntry>) -> Seq<ScanEntryView> {
    list.map_values(|e: ScanEntry| e@)
}

/// The columns of a scan: each filled up to its width, with a space between them. The last one
/// has no width.
pub open spec fn scan_columns(
    vid: Seq<char>,
    pid: Seq<char>,
    usage_page: Seq<char>,
    usage: Seq<char>,
    interface: Seq<char>,
    manufacturer: Seq<char>,
    product: Seq<char>,
) -> Seq<char> {
    text::padded(vid, 7) + " "@ + text::padded(pid, 7) + " "@ + text::padded(usage_page, 7) + " "@
        + text::padded(usage, 7) + " "@ + text::padded(interface, 3) + " "@ + text::padded(
        manufacturer,
        24,
    ) + " "@ + product
}

/// The head of a scan.
pub open spec fn scan_head() -> Seq<char> {
    scan_columns("VID"@, "PID"@, "UsgPg"@, "Usage"@, "If#"@, "Manufacturer"@, "Product"@)
}

/// The line of a collection.
pub open spec fn scan_line(e: ScanEntryView) -> Seq<char> {
    scan_columns(
        e.vid,
        e.pid,
        e.usage_page,
        e.usage,
        text::signed_text(e.interface),
        e.manufacturer,
        e.product,
    )
}

/// A 16-bit number as `0x` and four hexadecimal digits.
fn show_hex16(v: u16) -> (s: String)
    ensures
        s@ == hex16(v),
{
    let mut s = "0x".to_owned();
    text::push_hex(&mut s, v as u32, 4, false);
    s
}

/// The text, or an empty one where it is missing.
fn text_or_empty(s: &Option<String>) -> (text: String)
    ensures
        text@ == or_empty(*s),
{
    match s {
        Some(text) => text.clone(),
        None => String::new(),
    }
}

/// The collections, as they are shown.
pub fn scan_entries(found: &Vec<HidInfo>) -> (list: Vec<ScanEntry>)
    ensures
        scan_views(list@) == found@.map_values(|info: HidInfo| entry_of(info)),
{
    let ghost all = found@.map_values(|info: HidInfo| entry_of(info));
    let mut list: Vec<ScanEntry> = Vec::new();
    let mut i: usize = 0;
    assert(scan_views(list@) =~= all.take(0));
    while i < found.len()
        invariant
            i <= found@.len(),
            all == found@.map_values(|info: HidInfo| entry_of(info)),
            scan_views(list@) == all.take(i as int),
        decreases found@.len() - i,
    {
        let info = &found[i];
        let ghost before = scan_views(list@);
        list.push(
            ScanEntry {
                vid: show_hex16(info.vendor_id),
                pid: show_hex16(info.product_id),
                usage_page: show_hex16(info.usage_page),
                usage: show_hex16(info.usage),
                interface: info.interface,
                manufacturer: text_or_empty(&info.manufacturer),
                product: text_or_empty(&info.product),
                path: info.path.clone(),
            },
        );
        assert(list@.last()@ == all[i as int]);
        assert(scan_views(list@) =~= before.push(list@.last()@));
        i += 1;
        assert(scan_views(list@) =~= all.take(i as int));
    }
    assert(all.take(i as int) =~= all);
    list
}

/// One line of a scan.
fn show_columns(
    vid: &str,
    pid: &str,
    usage_page: &str,
    usage: &str,
    interface: &str,
    manufacturer: &str,
    product: &str,
) -> (line: String)
    ensures
        line@ == scan_columns(
            vid@,
            pid@,
            usage_page@,
            usage@,
            interface@,
            manufacturer@,
            product@,
        ),
{
    let mut line = String::new();
    text::push_padded(&mut line, vid, 7);
    line.append(" ");
    text::push_padded(&mut line, pid, 7);
    line.append(" ");
    text::push_padded(&mut line, usage_page, 7);
    line.append(" ");
    text::push_padded(&mut line, usage, 7);
    line.append(" ");
    text::push_padded(&mut line, interface, 3);
    line.append(" ");
    text::push_padded(&mut line, manufacturer, 24);
    line.append(" ");
    line.append(product);
    assert(line@ =~= scan_columns(
        vid@,
        pid@,
        usage_page@,
        usage@,
        interface@,
        manufacturer@,
        product@,
    ));
    line
}

/// What a scan shows: a head, then a line for each collection.
pub fn run_scan(entries: &Vec<ScanEntry>) -> (lines: Vec<String>)
    ensures
        text::texts(lines@) == seq![scan_head()] + scan_views(entries@).map_values(
            |e: ScanEntryView| scan_line(e),
        ),
{
    let ghost all = seq![scan_head()] + scan_views(entries@).map_values(
        |e: ScanEntryView| scan_line(e),
    );
    let mut lines: Vec<String> = Vec::new();
    lines.push(
        show_columns("VID", "PID", "UsgPg", "Usage", "If#", "Manufacturer", "Product"),
    );
    assert(text::texts(lines@) =~= all.take(1));
    let mut i: usize = 0;
    while i < entries.len()
        invariant
            i <= entries@.len(),
            all == seq![scan_head()] + scan_views(entries@).map_values(
                |e: ScanEntryView| scan_line(e),
            ),
            text::texts(lines@) == all.take(i + 1),
        decreases entries@.len() - i,
    {
        let e = &entries[i];
        let mut interface = String::new();
        text::push_signed(&mut interface, e.interface);
        assert(interface@ =~= text::signed_text(e.interface as int));
        let ghost before = text::texts(lines@);
        lines.push(
            show_columns(
                e.vid.as_str(),
                e.pid.as_str(),
                e.usage_page.as_str(),
                e.usage.as_str(),
                interface.as_str(),
                e.manufacturer.as_str(),
                e.product.as_str(),
            ),
        );
        assert(lines@.last()@ == all[i + 1]);
        assert(text::texts(lines@) =~= before.push(lines@.last()@));
        i += 1;
        assert(text::texts(lines@) =~= all.take(i + 1));
    }
    assert(all.take(i + 1) =~= all);
    lines
}

// ---------------------------------------------------------------------------
// Report descriptors
// ---------------------------------------------------------------------------

/// The line of a row of a raw descriptor.
pub open spec fn raw_line(bytes: Seq<u8>) -> Seq<char> {
    "  "@ + text::joined(hex_cells(bytes), " "@)
}

/// The line of a report.
pub open spec fn report_line(r: ReportView) -> Seq<char> {
    text::padded(r.kind, 7) + " 0x"@ + text::hex_text(r.id, 2, false) + "   "@ + text::padded(
        text::decimal_text(r.total_bits),
        10,
    ) + " "@ + text::decimal_text(r.total_bytes)
}

/// The head above the reports.
pub open spec fn reports_head() -> Seq<char> {
    text::padded("Kind"@, 7) + " "@ + text::padded("ID"@, 7) + " "@ + text::padded("Bits"@, 10)
        + " "@ + "Bytes"@
}

/// What is shown of a descriptor: its bytes, an empty line, a head, and a line for each report.
pub open spec fn descriptor_lines(desc: Seq<u8>, reports: Seq<ReportView>) -> Seq<Seq<char>> {
    seq!["raw descriptor ("@ + text::decimal_text(desc.len()) + " bytes):"@] + Seq::new(
        row_count(desc),
        |k: int| raw_line(row(desc, k)),
    ) + seq![Seq::<char>::empty(), reports_head()] + reports.map_values(
        |r: ReportView| report_line(r),
    )
}

/// The bytes of a descriptor in one run of hexadecimal digits.
pub fn raw_hex(desc: &[u8]) -> (hex: String)
    ensures
        hex@ == text::joined(hex_cells(desc@), Seq::empty()),
{
    let cells = cells_of(desc, 0, desc.len());
    assert(desc@.subrange(0, desc@.len() as int) =~= desc@);
    proof {
        reveal_strlit("");
        assert(""@ =~= Seq::<char>::empty());
    }
    text::join(&cells, "")
}

/// The line of a report.
fn show_report(r: &ReportInfo) -> (line: String)
    ensures
        line@ == report_line(r@),
{
    let mut line = String::new();
    text::push_padded(&mut line, r.kind, 7);
    line.append(" 0x");
    text::push_hex(&mut line, r.id as u32, 2, false);
    line.append("   ");
    let mut bits = String::new();
    text::push_decimal(&mut bits, r.total_bits as u64);
    assert(bits@ =~= text::decimal_text(r.total_bits as nat));
    text::push_padded(&mut line, bits.as_str(), 10);
    line.append(" ");
    text::push_decimal(&mut line, r.total_bytes as u64);
    assert(line@ =~= report_line(r@));
    line
}

/// The head above the reports.
fn show_reports_head() -> (line: String)
    ensures
        line@ == reports_head(),
{
    let mut line = String::new();
    text::push_padded(&mut line, "Kind", 7);
    line.append(" ");
    text::push_padded(&mut line, "ID", 7);
    line.append(" ");
    text::push_padded(&mut line, "Bits", 10);
    line.append(" ");
    line.append("Bytes");
    assert(line@ =~= reports_head());
    line
}

/// Where a row of sixteen bytes ends.
fn row_end(len: usize, from: usize) -> (end: usize)
    requires
        from <= len,
    ensures
        end == if from + 16 <= len {
            from + 16
        } else {
            len as int
        },
{
    if len - from >= 16 {
        from + 16
    } else {
        len
    }
}

/// What is shown of a descriptor and the reports that it declares.
pub fn run_descriptor(desc: &[u8], reports: &Vec<ReportInfo>) -> (lines: Vec<String>)
    ensures
        text::texts(lines@) == descriptor_lines(desc@, hid::report_views(reports@)),
{
    let mut lines: Vec<String> = Vec::new();
    let mut first = "raw descriptor (".to_owned();
    text::push_decimal(&mut first, desc.len() as u64);
    first.append(" bytes):");
    let ghost head = first@;
    lines.push(first);
    let ghost rows = Seq::new(row_count(desc@), |k: int| raw_line(row(desc@, k)));
    let mut from: usize = 0;
    let ghost mut k: int = 0;
    assert(text::texts(lines@) =~= seq![head] + rows.take(0));
    while from < desc.len()
        invariant
            desc.len() == desc@.len(),
            0 <= k <= row_count(desc@),
            from <= desc@.len(),
            from == 16 * k || from == desc@.len() && k == row_count(desc@),
            rows == Seq::new(row_count(desc@), |k: int| raw_line(row(desc@, k))),
            text::texts(lines@) == seq![head] + rows.take(k),
        decreases desc@.len() - from,
    {
        let to: usize = row_end(desc.len(), from);
        let cells = cells_of(desc, from, to);
        let mut line = "  ".to_owned();
        line.append(text::join(&cells, " ").as_str());
        assert(line@ == rows[k]);
        let ghost before = text::texts(lines@);
        lines.push(line);
        assert(text::texts(lines@) =~= before.push(line@));
        proof {
            k = k + 1;
        }
        assert(text::texts(lines@) =~= seq![head] + rows.take(k));
        from = to;
    }
    assert(rows.take(k) =~= rows);
    let ghost above = text::texts(lines@);
    lines.push(String::new());
    lines.push(show_reports_head());
    let ghost middle = seq![Seq::<char>::empty(), reports_head()];
    assert(text::texts(lines@) =~= above + middle);
    let ghost all = hid::report_views(reports@).map_values(|r: ReportView| report_line(r));
    let mut i: usize = 0;
    assert(above + middle + all.take(0) =~= above + middle);
    while i < reports.len()
        invariant
            i <= reports@.len(),
            all == hid::report_views(reports@).map_values(|r: ReportView| report_line(r)),
            text::texts(lines@) == above + middle + all.take(i as int),
        decreases reports@.len() - i,
    {
        let ghost before = text::texts(lines@);
        lines.push(show_report(&reports[i]));
        assert(lines@.last()@ == all[i as int]);
        assert(text::texts(lines@) =~= before.push(lines@.last()@));
        i += 1;
        assert(text::texts(lines@) =~= above + middle + all.take(i as int));
    }
    assert(all.take(i as int) =~= all);
    assert(text::texts(lines@) =~= descriptor_lines(desc@, hid::report_views(reports@)));
    lines
}

/// What is shown of a descriptor: its bytes, and the reports that these bytes declare; `None`
/// exactly where a report's length in bits does not fit in 32 bits.
pub fn descriptor_report(desc: &[u8]) -> (lines: Option<Vec<String>>)
    ensures
        lines is Some == hid::lengths_fit(hid::items(desc@)),
        lines matches Some(l) ==> text::texts(l@) == descriptor_lines(
            desc@,
            hid::reports_of(desc@),
        ),
{
    match hid::checked_descriptor_reports(desc) {
        Some(reports) => Some(run_descriptor(desc, &reports)),
        None => None,
    }
}

// ---------------------------------------------------------------------------
// Feature reports
// ---------------------------------------------------------------------------

/// The line of a row of a feature report: digits, then characters.
pub open spec fn dump_line(bytes: Seq<u8>) -> Seq<char> {
    "  "@ + text::padded(text::joined(hex_cells(bytes), " "@), 48) + "  |"@ + ascii_of(bytes)
        + "|"@
}

/// What is shown of a feature report that was read.
pub open spec fn probe_lines(report_id: u8, bytes: Seq<u8>, id: DeviceIdView) -> Seq<Seq<char>> {
    seq![
        "got "@ + text::decimal_text(bytes.len()) + " bytes from feature report 0x"@
            + text::hex_text(report_id as nat, 2, false) + " on "@ + backend::id_text(id) + ":"@,
    ] + Seq::new(row_count(bytes), |k: int| dump_line(row(bytes, k)))
}

/// What is shown of a feature report that was read.
pub fn run_probe(report_id: u8, bytes: &[u8], id: &DeviceId) -> (lines: Vec<String>)
    ensures
        text::texts(lines@) == probe_lines(report_id, bytes@, id@),
{
    let mut lines: Vec<String> = Vec::new();
    let mut first = "got ".to_owned();
    text::push_decimal(&mut first, bytes.len() as u64);
    first.append(" bytes from feature report 0x");
    text::push_hex(&mut first, report_id as u32, 2, false);
    first.append(" on ");
    first.append(id.to_string().as_str());
    first.append(":");
    let ghost head = first@;
    lines.push(first);
    let ghost rows = Seq::new(row_count(bytes@), |k: int| dump_line(row(bytes@, k)));
    let mut from: usize = 0;
    let ghost mut k: int = 0;
    assert(text::texts(lines@) =~= seq![head] + rows.take(0));
    while from < bytes.len()
        invariant
            bytes.len() == bytes@.len(),
            0 <= k <= row_count(bytes@),
            from <= bytes@.len(),
            from == 16 * k || from == bytes@.len() && k == row_count(bytes@),
            rows == Seq::new(row_count(bytes@), |k: int| dump_line(row(bytes@, k))),
            text::texts(lines@) == seq![head] + rows.take(k),
        decreases bytes@.len() - from,
    {
        let to: usize = row_end(bytes.len(), from);
        let cells = cells_of(bytes, from, to);
        let mut line = "  ".to_owned();
        text::push_padded(&mut line, text::join(&cells, " ").as_str(), 48);
        line.append("  |");
        push_ascii(&mut line, bytes, from, to);
        line.append("|");
        assert(line@ == rows[k]);
        let ghost before = text::texts(lines@);
        lines.push(line);
        assert(text::texts(lines@) =~= before.push(line@));
        proof {
            k = k + 1;
        }
        assert(text::texts(lines@) =~= seq![head] + rows.take(k));
        from = to;
    }
    assert(rows.take(k) =~= rows);
    lines
}

/// What is shown when a payload has been written.
pub fn run_raw_write(payload: &[u8], id: &DeviceId) -> (line: String)
    ensures
        line@ == "wrote "@ + text::decimal_text(payload@.len()) + " payload bytes to "@
            + backend::id_text(id@),
{
    let mut line = "wrote ".to_owned();
    text::push_decimal(&mut line, payload.len() as u64);
    line.append(" payload bytes to ");
    line.append(id.to_string().as_str());
    line
}

} // verus!
