//! What is shown of a diagnostic reading: each controller, then the registers in which the
//! controllers differ.

use crate::backends::diag::{self, DiagEntry, DiagEntryView};
use crate::backends::{diag_laws, ene};
use crate::commands::show;
use crate::pawnio::SmbusXfer;
use crate::text;
use vstd::prelude::*;

verus! {

// ---------------------------------------------------------------------------
// Controllers
// ---------------------------------------------------------------------------

/// A byte as two hexadecimal digits.
pub open spec fn hex8(v: u8) -> Seq<char> {
    text::hex_text(v as nat, 2, false)
}

/// A color as its channels are read. The chip keeps red, blue and green in this order.
pub open spec fn color_line(label: Seq<char>, rbg: Seq<u8>) -> Seq<char> {
    label + " R="@ + hex8(rbg[0]) + " G="@ + hex8(rbg[2]) + " B="@ + hex8(rbg[1])
}

/// The lines of a controller: its address, its name as characters and as digits, and the first
/// color in each register bank.
pub open spec fn chip_lines(e: DiagEntryView) -> Seq<Seq<char>> {
    seq![
        "0x"@ + hex8(e.addr) + ":"@,
        "  name (ascii): \""@ + show::ascii_of(e.name) + "\""@,
        "  name (hex):   "@ + text::joined(show::hex_cells(e.name), " "@),
        color_line("  effect-color LED0 (0x8010):"@, e.v1_first),
        color_line("  effect-color V2 LED0 (0x8160):"@, e.v2_first),
    ]
}

/// The lines of controllers, one after another.
pub open spec fn chips_lines(entries: Seq<DiagEntryView>) -> Seq<Seq<char>>
    decreases entries.len(),
{
    if entries.len() == 0 {
        Seq::empty()
    } else {
        chips_lines(entries.drop_last()) + chip_lines(entries.last())
    }
}

/// A byte as two hexadecimal digits.
fn show_hex8(v: u8) -> (s: String)
    ensures
        s@ == hex8(v),
{
    let mut s = String::new();
    text::push_hex(&mut s, v as u32, 2, false);
    assert(s@ =~= hex8(v));
    s
}

/// A color as its channels are read.
fn show_color(label: &str, rbg: &[u8; 3]) -> (line: String)
    ensures
        line@ == color_line(label@, rbg@),
{
    let mut line = label.to_owned();
    line.append(" R=");
    line.append(show_hex8(rbg[0]).as_str());
    line.append(" G=");
    line.append(show_hex8(rbg[2]).as_str());
    line.append(" B=");
    line.append(show_hex8(rbg[1]).as_str());
    line
}

/// Appends the lines of a controller.
fn push_chip(lines: &mut Vec<String>, e: &DiagEntry)
    ensures
        text::texts(final(lines)@) == text::texts(old(lines)@) + chip_lines(e@),
{
    let ghost start = text::texts(lines@);
    let mut address = "0x".to_owned();
    address.append(show_hex8(e.addr).as_str());
    address.append(":");
    lines.push(address);
    let bytes = e.name.as_slice();
    assert(bytes@.subrange(0, 16) =~= e.name@);
    let mut ascii = "  name (ascii): \"".to_owned();
    show::push_ascii(&mut ascii, bytes, 0, 16);
    ascii.append("\"");
    lines.push(ascii);
    let mut hex = "  name (hex):   ".to_owned();
    let cells = show::cells_of(bytes, 0, 16);
    hex.append(text::join(&cells, " ").as_str());
    lines.push(hex);
    lines.push(show_color("  effect-color LED0 (0x8010):", &e.v1_first));
    lines.push(show_color("  effect-color V2 LED0 (0x8160):", &e.v2_first));
    assert(text::texts(lines@) =~= start + chip_lines(e@));
}

// ---------------------------------------------------------------------------
// Differences
// ---------------------------------------------------------------------------

/// What a controller's dump holds at a place.
pub open spec fn value_at(e: DiagEntryView, place: int) -> Option<u8> {
    e.dump[place].1
}

/// Some controller holds another value at the place than the first one.
pub open spec fn differs(entries: Seq<DiagEntryView>, place: int) -> bool {
    exists|j: int|
        0 <= j < entries.len() && value_at(#[trigger] entries[j], place) != value_at(
            entries[0],
            place,
        )
}

/// A value as it is shown: two digits, or two dashes where it could not be read.
pub open spec fn cell(value: Option<u8>) -> Seq<char> {
    match value {
        Some(b) => hex8(b),
        None => "--"@,
    }
}

/// The line of a place of the dump: the register, then what each controller holds.
pub open spec fn diff_line(entries: Seq<DiagEntryView>, place: int) -> Seq<char> {
    "0x"@ + text::hex_text(entries[0].dump[place].0 as nat, 4, false) + "   "@ + text::joined(
        entries.map_values(|e: DiagEntryView| cell(value_at(e, place))),
        "      "@,
    )
}

/// The lines of the places before `n` in which the controllers differ.
pub open spec fn diff_lines(entries: Seq<DiagEntryView>, n: nat) -> Seq<Seq<char>>
    decreases n,
{
    if n == 0 {
        Seq::empty()
    } else {
        let before = diff_lines(entries, (n - 1) as nat);
        if differs(entries, n - 1) {
            before.push(diff_line(entries, n - 1))
        } else {
            before
        }
    }
}

/// The head of the differences: the controllers' addresses.
pub open spec fn diff_head(entries: Seq<DiagEntryView>) -> Seq<char> {
    "reg      "@ + text::joined(
        entries.map_values(|e: DiagEntryView| "0x"@ + hex8(e.addr)),
        "    "@,
    )
}

/// What is shown of a diagnostic reading.
pub open spec fn probe_lines(entries: Seq<DiagEntryView>) -> Seq<Seq<char>> {
    if entries.len() == 0 {
        seq!["No ENE controllers detected on SMBus."@]
    } else {
        let rows = diff_lines(entries, entries[0].dump.len());
        chips_lines(entries) + seq![
            Seq::<char>::empty(),
            "== cross-DIMM register diff =="@,
            "(only registers where at least one DIMM differs from the first are shown; `--` = read failed)"@,
            diff_head(entries),
        ] + rows + if rows.len() == 0 {
            seq!["(no register in the scanned ranges differs across DIMMs)"@]
        } else {
            Seq::empty()
        }
    }
}

/// No dump is shorter than the first one.
pub open spec fn dumps_line_up(entries: Seq<DiagEntryView>) -> bool {
    forall|j: int|
        0 <= j < entries.len() ==> (#[trigger] entries[j]).dump.len() >= entries[0].dump.len()
}

/// Whether two values are the same.
fn same_value(a: Option<u8>, b: Option<u8>) -> (same: bool)
    ensures
        same == (a == b),
{
    match (a, b) {
        (Some(x), Some(y)) => x == y,
        (None, None) => true,
        _ => false,
    }
}

/// Whether some controller holds another value at the place than the first one.
fn is_different(entries: &Vec<DiagEntry>, place: usize) -> (yes: bool)
    requires
        entries@.len() > 0,
        place < entries@[0]@.dump.len(),
        dumps_line_up(diag::entry_views(entries@)),
    ensures
        yes == differs(diag::entry_views(entries@), place as int),
{
    let ghost views = diag::entry_views(entries@);
    let first = entries[0].dump[place].1;
    let mut j: usize = 0;
    while j < entries.len()
        invariant
            j <= entries@.len(),
            entries@.len() > 0,
            views == diag::entry_views(entries@),
            dumps_line_up(views),
            place < views[0].dump.len(),
            first == value_at(views[0], place as int),
            forall|m: int|
                0 <= m < j ==> value_at(#[trigger] views[m], place as int) == first,
        decreases entries@.len() - j,
    {
        assert(views[j as int].dump.len() >= views[0].dump.len());
        if !same_value(entries[j].dump[place].1, first) {
            assert(value_at(views[j as int], place as int) != first);
            return true;
        }
        j += 1;
    }
    false
}

/// The line of a place of the dump.
fn show_difference(entries: &Vec<DiagEntry>, place: usize) -> (line: String)
    requires
        entries@.len() > 0,
        place < entries@[0]@.dump.len(),
        dumps_line_up(diag::entry_views(entries@)),
    ensures
        line@ == diff_line(diag::entry_views(entries@), place as int),
{
    let ghost views = diag::entry_views(entries@);
    let ghost all = views.map_values(|e: DiagEntryView| cell(value_at(e, place as int)));
    let mut cells: Vec<String> = Vec::new();
    let mut j: usize = 0;
    assert(text::texts(cells@) =~= all.take(0));
    while j < entries.len()
        invariant
            j <= entries@.len(),
            entries@.len() > 0,
            views == diag::entry_views(entries@),
            all == views.map_values(|e: DiagEntryView| cell(value_at(e, place as int))),
            dumps_line_up(views),
            place < views[0].dump.len(),
            text::texts(cells@) == all.take(j as int),
        decreases entries@.len() - j,
    {
        assert(views[j as int].dump.len() >= views[0].dump.len());
        let ghost before = text::texts(cells@);
        cells.push(
            match entries[j].dump[place].1 {
                Some(b) => show_hex8(b),
                None => "--".to_owned(),
            },
        );
        assert(cells@.last()@ == all[j as int]);
        assert(text::texts(cells@) =~= before.push(cells@.last()@));
        j += 1;
        assert(text::texts(cells@) =~= all.take(j as int));
    }
    assert(all.take(j as int) =~= all);
    let mut line = "0x".to_owned();
    text::push_hex(&mut line, entries[0].dump[place].0 as u32, 4, false);
    line.append("   ");
    line.append(text::join(&cells, "      ").as_str());
    line
}

/// The head of the differences.
fn show_head(entries: &Vec<DiagEntry>) -> (line: String)
    ensures
        line@ == diff_head(diag::entry_views(entries@)),
{
    let ghost all = diag::entry_views(entries@).map_values(
        |e: DiagEntryView| "0x"@ + hex8(e.addr),
    );
    let mut cells: Vec<String> = Vec::new();
    let mut j: usize = 0;
    assert(text::texts(cells@) =~= all.take(0));
    while j < entries.len()
        invariant
            j <= entries@.len(),
            all == diag::entry_views(entries@).map_values(
                |e: DiagEntryView| "0x"@ + hex8(e.addr),
            ),
            text::texts(cells@) == all.take(j as int),
        decreases entries@.len() - j,
    {
        let mut address = "0x".to_owned();
        address.append(show_hex8(entries[j].addr).as_str());
        let ghost before = text::texts(cells@);
        cells.push(address);
        assert(text::texts(cells@) =~= before.push(address@));
        j += 1;
        assert(text::texts(cells@) =~= all.take(j as int));
    }
    assert(all.take(j as int) =~= all);
    let mut line = "reg      ".to_owned();
    line.append(text::join(&cells, "    ").as_str());
    line
}

/// What is shown of a diagnostic reading.
pub fn run_ene_probe(entries: &Vec<DiagEntry>) -> (lines: Vec<String>)
    requires
        dumps_line_up(diag::entry_views(entries@)),
    ensures
        text::texts(lines@) == probe_lines(diag::entry_views(entries@)),
{
    let ghost views = diag::entry_views(entries@);
    let mut lines: Vec<String> = Vec::new();
    if entries.len() == 0 {
        lines.push("No ENE controllers detected on SMBus.".to_owned());
        assert(text::texts(lines@) =~= probe_lines(views));
        return lines;
    }
    let mut i: usize = 0;
    assert(text::texts(lines@) =~= chips_lines(views.take(0)));
    while i < entries.len()
        invariant
            i <= entries@.len(),
            views == diag::entry_views(entries@),
            text::texts(lines@) == chips_lines(views.take(i as int)),
        decreases entries@.len() - i,
    {
        push_chip(&mut lines, &entries[i]);
        assert(views.take(i + 1).drop_last() =~= views.take(i as int));
        i += 1;
    }
    assert(views.take(i as int) =~= views);
    lines.push(String::new());
    lines.push("== cross-DIMM register diff ==".to_owned());
    lines.push(
        "(only registers where at least one DIMM differs from the first are shown; `--` = read failed)".to_owned(),
    );
    lines.push(show_head(entries));
    let ghost above = text::texts(lines@);
    assert(above =~= chips_lines(views) + seq![
        Seq::<char>::empty(),
        "== cross-DIMM register diff =="@,
        "(only registers where at least one DIMM differs from the first are shown; `--` = read failed)"@,
        diff_head(views),
    ]);
    let mut any = false;
    let mut place: usize = 0;
    assert(above + diff_lines(views, 0) =~= above);
    while place < entries[0].dump.len()
        invariant
            entries@.len() > 0,
            views == diag::entry_views(entries@),
            dumps_line_up(views),
            place <= views[0].dump.len(),
            any == (diff_lines(views, place as nat).len() > 0),
            text::texts(lines@) == above + diff_lines(views, place as nat),
        decreases views[0].dump.len() - place,
    {
        if is_different(entries, place) {
            any = true;
            let ghost before = text::texts(lines@);
            lines.push(show_difference(entries, place));
            assert(text::texts(lines@) =~= before.push(lines@.last()@));
            assert(text::texts(lines@) =~= above + diff_lines(views, (place + 1) as nat));
        }
        place += 1;
    }
    if !any {
        let ghost before = text::texts(lines@);
        lines.push("(no register in the scanned ranges differs across DIMMs)".to_owned());
        assert(text::texts(lines@) =~= before.push(lines@.last()@));
    }
    assert(text::texts(lines@) =~= probe_lines(views));
    lines
}

// ---------------------------------------------------------------------------
// What holds of every reading
// ---------------------------------------------------------------------------

/// The places before `n` in which the controllers differ, in rising order.
pub open spec fn differing(entries: Seq<DiagEntryView>, n: nat) -> Seq<nat>
    decreases n,
{
    if n == 0 {
        Seq::empty()
    } else {
        let before = differing(entries, (n - 1) as nat);
        if differs(entries, n - 1) {
            before.push((n - 1) as nat)
        } else {
            before
        }
    }
}

/// The lines of differences are exactly those of the places in which the controllers differ,
/// in rising order, each once.
pub proof fn law_differences_are_exact(entries: Seq<DiagEntryView>, n: nat)
    ensures
        ({
            let places = differing(entries, n);
            &&& diff_lines(entries, n).len() == places.len()
            &&& forall|i: int|
                0 <= i < places.len() ==> {
                    &&& #[trigger] places[i] < n
                    &&& differs(entries, places[i] as int)
                    &&& diff_lines(entries, n)[i] == diff_line(entries, places[i] as int)
                }
            &&& forall|i: int, j: int|
                0 <= i < j < places.len() ==> #[trigger] places[i] < #[trigger] places[j]
            &&& forall|place: nat|
                place < n && differs(entries, place as int) ==> #[trigger] places.contains(place)
        }),
    decreases n,
{
    if n > 0 {
        let last = (n - 1) as nat;
        law_differences_are_exact(entries, last);
        let before = differing(entries, last);
        let places = differing(entries, n);
        assert forall|place: nat| place < n && differs(
            entries,
            place as int,
        ) implies #[trigger] places.contains(place) by {
            if place < last {
                assert(before.contains(place));
                let i = choose|i: int| 0 <= i < before.len() && before[i] == place;
                assert(places[i] == place);
            } else {
                assert(places[places.len() - 1] == place);
            }
        }
    }
}

/// Whatever is on the bus, the dumps of a diagnostic reading line up and can be shown.
pub proof fn law_readings_can_be_shown(bus: ene::Bus, log: Seq<SmbusXfer>, addrs: Seq<u8>)
    ensures
        dumps_line_up(diag::diag_run(bus, log, addrs, Seq::empty()).1),
{
    diag_laws::law_diag_entries_line_up(bus, log, addrs, Seq::empty());
    let entries = diag::diag_run(bus, log, addrs, Seq::empty()).1;
    assert forall|j: int| 0 <= j < entries.len() implies (#[trigger] entries[j]).dump.len()
        >= entries[0].dump.len() by {
        assert(diag_laws::complete(entries[j], addrs[j]));
        assert(diag_laws::complete(entries[0], addrs[0]));
    }
}

/// One controller alone differs from nothing.
pub proof fn law_one_controller_never_differs(e: DiagEntryView, n: nat)
    ensures
        diff_lines(seq![e], n) == Seq::<Seq<char>>::empty(),
    decreases n,
{
    if n > 0 {
        law_one_controller_never_differs(e, (n - 1) as nat);
        assert(!differs(seq![e], n - 1));
    }
}

} // verus!
