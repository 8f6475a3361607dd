//! What is shown of a diagnostic reading, said of the reading as a whole.

use crate::backends::diag::DiagEntryView;
use crate::commands::ene_probe;
use crate::text;
use vstd::prelude::*;

verus! {

// ---------------------------------------------------------------------------
// Registers that differ
// ---------------------------------------------------------------------------

/// Two of the controllers do not hold the same at a place of the dump.
pub open spec fn unequal(entries: Seq<DiagEntryView>, place: int) -> bool {
    exists|j: int, k: int|
        0 <= j < entries.len() && 0 <= k < entries.len() && (#[trigger] entries[j]).dump[place].1
            != (#[trigger] entries[k]).dump[place].1
}

/// The numbers below `n`, in order.
pub open spec fn below(n: nat) -> Seq<int> {
    Seq::new(n, |i: int| i)
}

/// What one controller holds: two digits, or two dashes where it could not be read.
pub open spec fn byte_or_dashes(value: Option<u8>) -> Seq<char> {
    match value {
        Some(b) => text::hex_text(b as nat, 2, false),
        None => "--"@,
    }
}

/// The row of a place: the number of the register, then what each controller holds, in order.
pub open spec fn row_text(entries: Seq<DiagEntryView>, place: int) -> Seq<char> {
    "0x"@ + text::hex_text(entries[0].dump[place].0 as nat, 4, false) + "   "@ + text::joined(
        Seq::new(entries.len(), |j: int| byte_or_dashes(entries[j].dump[place].1)),
        "      "@,
    )
}

proof fn lemma_unequal(entries: Seq<DiagEntryView>, place: int)
    requires
        entries.len() > 0,
    ensures
        ene_probe::differs(entries, place) == unequal(entries, place),
{
    if ene_probe::differs(entries, place) {
        let j = choose|j: int|
            0 <= j < entries.len() && ene_probe::value_at(#[trigger] entries[j], place)
                != ene_probe::value_at(entries[0], place);
        assert(entries[j].dump[place].1 != entries[0].dump[place].1);
    }
    if unequal(entries, place) {
        let (j, k) = choose|j: int, k: int|
            0 <= j < entries.len() && 0 <= k < entries.len() && (
            #[trigger] entries[j]).dump[place].1 != (#[trigger] entries[k]).dump[place].1;
        assert(ene_probe::value_at(entries[j], place) != ene_probe::value_at(entries[0], place)
            || ene_probe::value_at(entries[k], place) != ene_probe::value_at(entries[0], place));
    }
}

/// A register has a row exactly when the controllers do not all hold the same in it. The rows
/// are in the order of the dump, and each shows what every controller holds.
pub proof fn law_rows_are_the_unequal_registers(entries: Seq<DiagEntryView>, n: nat)
    requires
        entries.len() > 0,
    ensures
        ene_probe::diff_lines(entries, n) == below(n).filter(
            |place: int| unequal(entries, place),
        ).map_values(|place: int| row_text(entries, place)),
    decreases n,
{
    reveal(Seq::filter);
    let pred = |place: int| unequal(entries, place);
    let show = |place: int| row_text(entries, place);
    if n > 0 {
        let less = (n - 1) as nat;
        law_rows_are_the_unequal_registers(entries, less);
        assert(below(n).drop_last() =~= below(less));
        assert(below(n).last() == n - 1);
        lemma_unequal(entries, n - 1);
        let cells = entries.map_values(
            |e: DiagEntryView| ene_probe::cell(ene_probe::value_at(e, n - 1)),
        );
        assert(cells =~= Seq::new(
            entries.len(),
            |j: int| byte_or_dashes(entries[j].dump[n - 1].1),
        ));
        assert(ene_probe::diff_line(entries, n - 1) == row_text(entries, n - 1));
        assert(below(n).filter(pred).map_values(show) =~= ene_probe::diff_lines(entries, n));
    } else {
        assert(below(n).filter(pred).map_values(show) =~= ene_probe::diff_lines(entries, n));
    }
}

/// Where no row is shown, all controllers hold the same in every register of the dump, and the
/// other way round.
pub proof fn law_no_rows_means_equal_dumps(entries: Seq<DiagEntryView>, n: nat)
    requires
        entries.len() > 0,
    ensures
        ene_probe::diff_lines(entries, n).len() == 0 <==> forall|j: int, k: int, place: int|
            0 <= j < entries.len() && 0 <= k < entries.len() && 0 <= place < n
                ==> #[trigger] entries[j].dump[place].1 == #[trigger] entries[k].dump[place].1,
{
    law_rows_are_the_unequal_registers(entries, n);
    let pred = |place: int| unequal(entries, place);
    let places = below(n).filter(pred);
    if places.len() > 0 {
        below(n).lemma_filter_pred(pred, 0);
        let p = places[0];
        assert(places.contains(p));
        below(n).lemma_filter_contains_rev(pred, p);
        let (j, k) = choose|j: int, k: int|
            0 <= j < entries.len() && 0 <= k < entries.len() && (#[trigger] entries[j]).dump[p].1
                != (#[trigger] entries[k]).dump[p].1;
        assert(entries[j].dump[p].1 != entries[k].dump[p].1);
    } else {
        assert forall|j: int, k: int, place: int|
            0 <= j < entries.len() && 0 <= k < entries.len() && 0 <= place
                < n implies #[trigger] entries[j].dump[place].1
            == #[trigger] entries[k].dump[place].1 by {
            if entries[j].dump[place].1 != entries[k].dump[place].1 {
                assert(pred(below(n)[place]));
                below(n).lemma_filter_contains(pred, place);
            }
        }
    }
}

/// Every dump of the one list is a dump of the other.
pub open spec fn dumps_among(a: Seq<DiagEntryView>, b: Seq<DiagEntryView>) -> bool {
    forall|j: int|
        0 <= j < a.len() ==> exists|k: int|
            0 <= k < b.len() && (#[trigger] a[j]).dump == (#[trigger] b[k]).dump
}

proof fn lemma_unequal_among(a: Seq<DiagEntryView>, b: Seq<DiagEntryView>, place: int)
    requires
        dumps_among(a, b),
        unequal(a, place),
    ensures
        unequal(b, place),
{
    let (j, k) = choose|j: int, k: int|
        0 <= j < a.len() && 0 <= k < a.len() && (#[trigger] a[j]).dump[place].1 != (
        #[trigger] a[k]).dump[place].1;
    let m = choose|m: int| 0 <= m < b.len() && a[j].dump == (#[trigger] b[m]).dump;
    let n = choose|n: int| 0 <= n < b.len() && a[k].dump == (#[trigger] b[n]).dump;
    assert(b[m].dump[place].1 != b[n].dump[place].1);
}

/// In which order the controllers are listed makes no difference to which registers are shown.
pub proof fn law_order_of_controllers_is_no_matter(
    a: Seq<DiagEntryView>,
    b: Seq<DiagEntryView>,
    n: nat,
)
    requires
        a.len() > 0,
        b.len() > 0,
        dumps_among(a, b),
        dumps_among(b, a),
    ensures
        ene_probe::differing(a, n) == ene_probe::differing(b, n),
        ene_probe::diff_lines(a, n).len() == ene_probe::diff_lines(b, n).len(),
    decreases n,
{
    if n > 0 {
        law_order_of_controllers_is_no_matter(a, b, (n - 1) as nat);
        lemma_unequal(a, n - 1);
        lemma_unequal(b, n - 1);
        if unequal(a, n - 1) {
            lemma_unequal_among(a, b, n - 1);
        }
        if unequal(b, n - 1) {
            lemma_unequal_among(b, a, n - 1);
        }
    }
}

// ---------------------------------------------------------------------------
// The whole text
// ---------------------------------------------------------------------------

/// A color as three channels of two digits. The chip keeps red, blue and green in this order.
pub open spec fn channels(rbg: Seq<u8>) -> Seq<char> {
    " R="@ + text::hex_text(rbg[0] as nat, 2, false) + " G="@ + text::hex_text(
        rbg[2] as nat,
        2,
        false,
    ) + " B="@ + text::hex_text(rbg[1] as nat, 2, false)
}

/// The bytes as pairs of digits.
pub open spec fn pairs(bytes: Seq<u8>) -> Seq<Seq<char>> {
    Seq::new(bytes.len(), |i: int| text::hex_text(bytes[i] as nat, 2, false))
}

/// The bytes as characters, with a dot for what is not printable.
pub open spec fn dotted(bytes: Seq<u8>) -> Seq<char> {
    Seq::new(
        bytes.len(),
        |i: int|
            if 0x20 <= bytes[i] <= 0x7E {
                bytes[i] as char
            } else {
                '.'
            },
    )
}

proof fn lemma_chips(entries: Seq<DiagEntryView>)
    ensures
        ene_probe::chips_lines(entries).len() == 5 * entries.len(),
        forall|i: int, r: int|
            0 <= i < entries.len() && 0 <= r < 5 ==> #[trigger] ene_probe::chips_lines(entries)[5
                * i + r] == #[trigger] ene_probe::chip_lines(entries[i])[r],
    decreases entries.len(),
{
    if entries.len() > 0 {
        let less = entries.drop_last();
        lemma_chips(less);
        let n = less.len() as int;
        assert forall|i: int, r: int| 0 <= i < entries.len() && 0 <= r < 5 implies
            #[trigger] ene_probe::chips_lines(entries)[5 * i + r]
            == #[trigger] ene_probe::chip_lines(entries[i])[r] by {
            if i < n {
                assert(less[i] == entries[i]);
                assert(ene_probe::chips_lines(less)[5 * i + r] == ene_probe::chip_lines(less[i])[r]);
            } else {
                assert(entries[i] == entries.last());
            }
        }
    }
}

/// Every controller is shown by five lines, in order: its address, its name as characters and as
/// digits, and its first color in each register bank. Behind them come an empty line, two lines
/// of heading, the addresses in the order of the columns, and the rows; where there is no row, a
/// line says so. Without a controller there is one line, which says so.
pub proof fn law_every_controller_is_shown(entries: Seq<DiagEntryView>, i: int)
    requires
        0 <= i < entries.len(),
    ensures
        ({
            let lines = ene_probe::probe_lines(entries);
            let rows = ene_probe::diff_lines(entries, entries[0].dump.len());
            let n = 5 * entries.len();
            let e = entries[i];
            &&& lines.len() == n + 4 + if rows.len() == 0 {
                1
            } else {
                rows.len()
            }
            &&& lines[5 * i] == "0x"@ + text::hex_text(e.addr as nat, 2, false) + ":"@
            &&& lines[5 * i + 1] == "  name (ascii): \""@ + dotted(e.name) + "\""@
            &&& lines[5 * i + 2] == "  name (hex):   "@ + text::joined(pairs(e.name), " "@)
            &&& lines[5 * i + 3] == "  effect-color LED0 (0x8010):"@ + channels(e.v1_first)
            &&& lines[5 * i + 4] == "  effect-color V2 LED0 (0x8160):"@ + channels(e.v2_first)
            &&& lines[n as int] == Seq::<char>::empty()
            &&& lines[n + 3int] == "reg      "@ + text::joined(
                Seq::new(
                    entries.len(),
                    |j: int| "0x"@ + text::hex_text(entries[j].addr as nat, 2, false),
                ),
                "    "@,
            )
            &&& forall|r: int| 0 <= r < rows.len() ==> #[trigger] lines[n + 4 + r] == rows[r]
            &&& rows.len() == 0 ==> lines.last()
                == "(no register in the scanned ranges differs across DIMMs)"@
        }),
        ene_probe::probe_lines(Seq::empty()) == seq!["No ENE controllers detected on SMBus."@],
{
    lemma_chips(entries);
    let lines = ene_probe::probe_lines(entries);
    let rows = ene_probe::diff_lines(entries, entries[0].dump.len());
    let chips = ene_probe::chips_lines(entries);
    let n = 5 * entries.len();
    let e = entries[i];
    let own = ene_probe::chip_lines(e);
    assert(chips[5 * i + 0] == own[0]);
    assert(chips[5 * i + 1] == own[1]);
    assert(chips[5 * i + 2] == own[2]);
    assert(chips[5 * i + 3] == own[3]);
    assert(chips[5 * i + 4] == own[4]);
    assert(crate::commands::show::ascii_of(e.name) =~= dotted(e.name));
    assert(crate::commands::show::hex_cells(e.name) =~= pairs(e.name));
    assert(own[3] =~= "  effect-color LED0 (0x8010):"@ + channels(e.v1_first));
    assert(own[4] =~= "  effect-color V2 LED0 (0x8160):"@ + channels(e.v2_first));
    assert(entries.map_values(|x: DiagEntryView| "0x"@ + ene_probe::hex8(x.addr)) =~= Seq::new(
        entries.len(),
        |j: int| "0x"@ + text::hex_text(entries[j].addr as nat, 2, false),
    ));
    assert(lines[n + 3int] == ene_probe::diff_head(entries));
}

} // verus!
