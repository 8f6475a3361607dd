//! What the lines of listings, scans, descriptors and reports say.

use crate::backend::{DeviceIdView, DeviceView, ZoneView};
use crate::commands::payload;
use crate::commands::probe_laws;
use crate::commands::show;
use crate::hid::{HidInfo, ReportView};
use crate::text;
use vstd::prelude::*;

verus! {

// ---------------------------------------------------------------------------
// Listings
// ---------------------------------------------------------------------------

/// Devices are listed one after another: the lines of two lists of devices are those of the
/// first, then those of the second.
pub proof fn law_devices_are_listed_in_order(a: Seq<DeviceView>, b: Seq<DeviceView>)
    ensures
        show::devices_lines(a + b) == show::devices_lines(a) + show::devices_lines(b),
    decreases b.len(),
{
    if b.len() == 0 {
        assert(a + b =~= a);
        assert(show::devices_lines(a) + show::devices_lines(b) =~= show::devices_lines(a));
    } else {
        law_devices_are_listed_in_order(a, b.drop_last());
        assert((a + b).drop_last() =~= a + b.drop_last());
        assert(show::devices_lines(a + b) =~= show::devices_lines(a) + show::devices_lines(b));
    }
}

/// A device has a line with its written id, its vendor and its name, and behind it a line for
/// each of its zones, with the zone's name and its number of LEDs, or a question mark where that
/// is not known. Where there is no device, a line says so.
pub proof fn law_device_has_its_lines(d: DeviceView)
    ensures
        ({
            let lines = show::list_lines(seq![d]);
            &&& lines.len() == 1 + d.zones.len()
            &&& lines[0] == d.id.backend + ":"@ + d.id.key + "  ["@ + d.vendor + "]  "@ + d.name
            &&& forall|i: int|
                0 <= i < d.zones.len() ==> #[trigger] lines[1 + i] == "    zone "@ + text::padded(
                    d.zones[i].name,
                    10,
                ) + " ("@ + (if d.zones[i].led_count == 0 {
                    "?"@
                } else {
                    text::decimal_text(d.zones[i].led_count)
                }) + " LEDs)"@
        }),
        show::list_lines(Seq::empty()) == seq!["No devices detected."@],
{
    reveal_with_fuel(show::devices_lines, 2);
    assert(seq![d].drop_last() =~= Seq::empty());
    let lines = show::list_lines(seq![d]);
    assert(lines =~= show::device_lines(d));
    assert(lines[0] =~= d.id.backend + ":"@ + d.id.key + "  ["@ + d.vendor + "]  "@ + d.name);
}

/// What is listed of several devices is what is listed of each.
pub proof fn law_listing_shows_every_device(a: Seq<DeviceView>, d: DeviceView)
    ensures
        show::list_lines(a.push(d)) == (if a.len() == 0 {
            Seq::empty()
        } else {
            show::list_lines(a)
        }) + show::list_lines(seq![d]),
{
    law_devices_are_listed_in_order(a, seq![d]);
    assert(a.push(d) =~= a + seq![d]);
    if a.len() == 0 {
        assert(show::devices_lines(a) =~= Seq::empty());
    }
}

// ---------------------------------------------------------------------------
// Scans
// ---------------------------------------------------------------------------

/// A 16-bit number as four digits behind `0x`.
pub open spec fn four_digits(v: u16) -> Seq<char> {
    "0x"@ + text::hex_text(v as nat, 4, false)
}

/// A collection is shown with vendor, product, usage page and usage as four digits each, its
/// interface, its manufacturer and its product, in this order; what is not known is empty.
pub proof fn law_collection_has_its_line(info: HidInfo)
    ensures
        ({
            let e = show::entry_of(info);
            let maker = match info.manufacturer {
                Some(name) => name@,
                None => Seq::empty(),
            };
            let product = match info.product {
                Some(name) => name@,
                None => Seq::empty(),
            };
            &&& e.vid == four_digits(info.vendor_id)
            &&& e.pid == four_digits(info.product_id)
            &&& e.usage_page == four_digits(info.usage_page)
            &&& e.usage == four_digits(info.usage)
            &&& e.interface == info.interface
            &&& e.manufacturer == maker
            &&& e.product == product
            &&& e.path == info.path@
            &&& show::scan_line(e) == four_digits(info.vendor_id) + "  "@ + four_digits(
                info.product_id,
            ) + "  "@ + four_digits(info.usage_page) + "  "@ + four_digits(info.usage) + "  "@
                + text::padded(text::signed_text(info.interface as int), 3) + " "@ + text::padded(
                maker,
                24,
            ) + " "@ + product
        }),
{
    lemma_four(info.vendor_id);
    lemma_four(info.product_id);
    lemma_four(info.usage_page);
    lemma_four(info.usage);
    let e = show::entry_of(info);
    let (v, p, g, u) = (e.vid, e.pid, e.usage_page, e.usage);
    let i = text::padded(text::signed_text(info.interface as int), 3);
    let m = text::padded(e.manufacturer, 24);
    let t1 = text::padded(v, 7) + " "@;
    assert(t1 == v + "  "@);
    lemma_column(t1, p, p + "  "@);
    let t2 = t1 + text::padded(p, 7) + " "@;
    assert(t2 =~= v + "  "@ + p + "  "@);
    lemma_column(t2, g, g + "  "@);
    let t3 = t2 + text::padded(g, 7) + " "@;
    assert(t3 =~= v + "  "@ + p + "  "@ + g + "  "@);
    lemma_column(t3, u, u + "  "@);
    let t4 = t3 + text::padded(u, 7) + " "@;
    assert(t4 =~= v + "  "@ + p + "  "@ + g + "  "@ + u + "  "@);
    assert(show::scan_line(e) == t4 + i + " "@ + m + " "@ + e.product);
}

/// Above the collections, every column has its name.
pub proof fn law_columns_are_named()
    ensures
        show::scan_head()
            == "VID     PID     UsgPg   Usage   If# Manufacturer             Product"@,
        show::reports_head() == "Kind    ID      Bits       Bytes"@,
{
    reveal_strlit("VID     PID     UsgPg   Usage   If# Manufacturer             Product");
    reveal_strlit("Kind    ID      Bits       Bytes");
    reveal_strlit("VID");
    reveal_strlit("PID");
    reveal_strlit("UsgPg");
    reveal_strlit("Usage");
    reveal_strlit("If#");
    reveal_strlit("Manufacturer");
    reveal_strlit("Product");
    reveal_strlit("Kind");
    reveal_strlit("ID");
    reveal_strlit("Bits");
    reveal_strlit("Bytes");
    reveal_strlit(" ");
    assert(show::scan_head()
        =~= "VID     PID     UsgPg   Usage   If# Manufacturer             Product"@);
    assert(show::reports_head() =~= "Kind    ID      Bits       Bytes"@);
}

/// A column behind others.
proof fn lemma_column(before: Seq<char>, cell: Seq<char>, shown: Seq<char>)
    requires
        text::padded(cell, 7) + " "@ == shown,
    ensures
        before + text::padded(cell, 7) + " "@ == before + shown,
{
    assert(before + text::padded(cell, 7) + " "@ =~= before + (text::padded(cell, 7) + " "@));
}

/// Six characters filled up to seven, and the space behind them.
proof fn lemma_four(v: u16)
    ensures
        text::padded(show::hex16(v), 7) + " "@ == four_digits(v) + "  "@,
{
    reveal_strlit("0x");
    reveal_strlit(" ");
    reveal_strlit("  ");
    text::lemma_hex_len(v as nat, 4, false);
    assert(show::hex16(v).len() == 6);
    assert(text::padded(show::hex16(v), 7) + " "@ =~= four_digits(v) + "  "@);
}

// ---------------------------------------------------------------------------
// Bytes
// ---------------------------------------------------------------------------

/// The bytes of a line: sixteen of them, fewer on the last line.
pub open spec fn line_bytes(bytes: Seq<u8>, k: int) -> Seq<u8> {
    if bytes.len() >= 16 * k + 16 {
        bytes.subrange(16 * k, 16 * k + 16)
    } else {
        bytes.skip(16 * k)
    }
}

/// How many lines the bytes take.
pub open spec fn line_count(bytes: Seq<u8>) -> int {
    (bytes.len() + 15int) / 16
}

proof fn lemma_rows(bytes: Seq<u8>, k: int)
    requires
        0 <= k < line_count(bytes),
    ensures
        show::row_count(bytes) == line_count(bytes),
        show::row(bytes, k) == line_bytes(bytes, k),
        show::hex_cells(line_bytes(bytes, k)) == probe_laws::pairs(line_bytes(bytes, k)),
        show::ascii_of(line_bytes(bytes, k)) == probe_laws::dotted(line_bytes(bytes, k)),
{
    assert(show::row(bytes, k) =~= line_bytes(bytes, k));
    assert(show::hex_cells(line_bytes(bytes, k)) =~= probe_laws::pairs(line_bytes(bytes, k)));
    assert(show::ascii_of(line_bytes(bytes, k)) =~= probe_laws::dotted(line_bytes(bytes, k)));
}

/// A descriptor is shown by a line with its length, its bytes in lines of sixteen as pairs of
/// digits, an empty line, a head, and a line for each report with its kind, its id, its bits and
/// its bytes.
pub proof fn law_descriptor_is_shown(desc: Seq<u8>, reports: Seq<ReportView>)
    ensures
        ({
            let lines = show::descriptor_lines(desc, reports);
            let n = line_count(desc);
            &&& lines.len() == 3 + n + reports.len()
            &&& lines[0] == "raw descriptor ("@ + text::decimal_text(desc.len()) + " bytes):"@
            &&& forall|k: int|
                0 <= k < n ==> #[trigger] lines[1 + k] == "  "@ + text::joined(
                    probe_laws::pairs(line_bytes(desc, k)),
                    " "@,
                )
            &&& lines[1 + n] == Seq::<char>::empty()
            &&& lines[2 + n] == "Kind    ID      Bits       Bytes"@
            &&& forall|r: int|
                0 <= r < reports.len() ==> #[trigger] lines[3 + n + r] == text::padded(
                    reports[r].kind,
                    7,
                ) + " 0x"@ + text::hex_text(reports[r].id, 2, false) + "   "@ + text::padded(
                    text::decimal_text(reports[r].total_bits),
                    10,
                ) + " "@ + text::decimal_text(reports[r].total_bytes)
        }),
{
    law_columns_are_named();
    let lines = show::descriptor_lines(desc, reports);
    let n = line_count(desc);
    assert(show::row_count(desc) == n);
    assert(lines[2 + n] == show::reports_head());
    assert forall|k: int| 0 <= k < n implies #[trigger] lines[1 + k] == "  "@ + text::joined(
        probe_laws::pairs(line_bytes(desc, k)),
        " "@,
    ) by {
        lemma_rows(desc, k);
        assert(lines[1 + k] == show::raw_line(show::row(desc, k)));
    }
    assert forall|r: int| 0 <= r < reports.len() implies #[trigger] lines[3 + n + r]
        == text::padded(reports[r].kind, 7) + " 0x"@ + text::hex_text(reports[r].id, 2, false)
        + "   "@ + text::padded(text::decimal_text(reports[r].total_bits), 10) + " "@
        + text::decimal_text(reports[r].total_bytes) by {
        assert(lines[3 + n + r] == show::report_line(reports[r]));
    }
}

/// The lines of sixteen bytes hold all bytes, in order and each once.
pub proof fn law_lines_hold_all_bytes(bytes: Seq<u8>, i: int)
    requires
        0 <= i < bytes.len(),
    ensures
        0 <= i / 16 < line_count(bytes),
        i % 16 < line_bytes(bytes, i / 16).len(),
        line_bytes(bytes, i / 16)[i % 16] == bytes[i],
{
}

/// A line of a report: pairs of digits, filled up to 48 characters, then the characters.
pub open spec fn dumped(part: Seq<u8>) -> Seq<char> {
    "  "@ + text::padded(text::joined(probe_laws::pairs(part), " "@), 48) + "  |"@
        + probe_laws::dotted(part) + "|"@
}

/// A feature report is shown by a line with its length, its id and the device, and its bytes in
/// lines of sixteen, as pairs of digits and as characters.
pub proof fn law_feature_report_is_shown(
    report_id: u8,
    bytes: Seq<u8>,
    id: DeviceIdView,
)
    ensures
        ({
            let lines = show::probe_lines(report_id, bytes, id);
            &&& lines.len() == 1 + line_count(bytes)
            &&& lines[0] == "got "@ + text::decimal_text(bytes.len())
                + " bytes from feature report 0x"@ + text::hex_text(report_id as nat, 2, false)
                + " on "@ + (id.backend + ":"@ + id.key) + ":"@
            &&& forall|k: int|
                0 <= k < line_count(bytes) ==> #[trigger] lines[1 + k] == dumped(
                    line_bytes(bytes, k),
                )
        }),
{
    let lines = show::probe_lines(report_id, bytes, id);
    assert(show::row_count(bytes) == line_count(bytes));
    assert forall|k: int| 0 <= k < line_count(bytes) implies #[trigger] lines[1 + k] == dumped(
        line_bytes(bytes, k),
    ) by {
        lemma_rows(bytes, k);
        assert(lines[1 + k] == show::dump_line(show::row(bytes, k)));
    }
}

/// Pairs of digits, joined by spaces, are the bytes spelled out with a space in front of each but
/// the first.
proof fn lemma_joined_is_spelled(bytes: Seq<u8>)
    requires
        bytes.len() > 0,
    ensures
        " "@ + text::joined(show::hex_cells(bytes), " "@) == payload::spelled(bytes, " "@, false),
    decreases bytes.len(),
{
    let cells = show::hex_cells(bytes);
    reveal_with_fuel(payload::spelled, 2);
    if bytes.len() == 1 {
        assert(bytes.drop_last() =~= Seq::empty());
        assert(" "@ + cells[0] =~= payload::spelled(bytes, " "@, false));
    } else {
        lemma_joined_is_spelled(bytes.drop_last());
        assert(cells.drop_last() =~= show::hex_cells(bytes.drop_last()));
        assert(" "@ + text::joined(cells, " "@) =~= payload::spelled(bytes, " "@, false));
    }
}

/// A line of bytes of a descriptor, given as a payload, is read as those bytes.
pub proof fn law_shown_bytes_read_back(bytes: Seq<u8>)
    requires
        bytes.len() > 0,
    ensures
        payload::digits_of(show::raw_line(bytes)).len() == 2 * bytes.len(),
        forall|k: int|
            0 <= k < bytes.len() ==> text::hex_pair(
                payload::digits_of(show::raw_line(bytes)),
                2 * k,
            ) == Some(#[trigger] bytes[k] as nat),
{
    reveal_strlit(" ");
    reveal_strlit("  ");
    lemma_joined_is_spelled(bytes);
    let spelled = payload::spelled(bytes, " "@, false);
    assert(show::raw_line(bytes) =~= " "@ + spelled);
    payload::law_spelled_bytes_read_back(bytes, " "@, false);
    reveal(Seq::filter);
    let pred = |c: char| payload::counts(c);
    Seq::filter_distributes_over_add(" "@, spelled, pred);
    assert(" "@.drop_last() =~= Seq::empty());
    assert(Seq::<char>::empty().filter(pred) =~= Seq::empty());
    assert(" "@.filter(pred) =~= Seq::empty());
    assert(payload::cleaned(show::raw_line(bytes)) =~= payload::cleaned(spelled));
}

/// The zones that a device reports keep their order.
pub proof fn law_zones_are_listed_in_order(d: DeviceView, z: ZoneView)
    ensures
        show::device_lines(DeviceView { zones: d.zones.push(z), ..d }) == show::device_lines(
            d,
        ).push(show::zone_line(z)),
{
    assert(show::device_lines(DeviceView { zones: d.zones.push(z), ..d }) =~= show::device_lines(
        d,
    ).push(show::zone_line(z)));
}

} // verus!
