//! HID collections, and their report descriptors: which reports a device declares and how long
//! each one is.

use crate::wire;
use vstd::prelude::*;

verus! {

/// A HID collection, as the system reports it. Names that cannot be read are missing.
#[derive(Debug, Clone)]
pub struct HidInfo {
    pub vendor_id: u16,
    pub product_id: u16,
    pub usage_page: u16,
    pub usage: u16,
    pub interface: i32,
    pub manufacturer: Option<String>,
    pub product: Option<String>,
    pub path: String,
}

/// One report that a descriptor declares.
#[derive(Debug, Clone, Copy)]
pub struct ReportInfo {
    pub kind: &'static str,
    pub id: u8,
    pub total_bits: u32,
    pub total_bytes: u32,
}

/// What a `ReportInfo` says, as mathematical values.
pub struct ReportView {
    pub kind: Seq<char>,
    pub id: nat,
    pub total_bits: nat,
    pub total_bytes: nat,
}

impl View for ReportInfo {
    type V = ReportView;

    open spec fn view(&self) -> ReportView {
        ReportView {
            kind: self.kind@,
            id: self.id as nat,
            total_bits: self.total_bits as nat,
            total_bytes: self.total_bytes as nat,
        }
    }
}

/// The reports of a list, as mathematical values.
pub open spec fn report_views(list: Seq<ReportInfo>) -> Seq<ReportView> {
    list.map_values(|r: ReportInfo| r@)
}

// ---------------------------------------------------------------------------
// The grammar: a descriptor is a row of items
// ---------------------------------------------------------------------------

/// A short item: its type (0 main, 1 global, 2 local), its tag and its data.
pub struct Item {
    pub class: nat,
    pub tag: nat,
    pub data: nat,
}

/// The prefix that opens a long item.
pub const LONG_ITEM: u8 = 0xFE;

/// How many data bytes follow the prefix of a short item.
pub open spec fn data_len(prefix: u8) -> nat {
    if prefix % 4 == 3 {
        4
    } else {
        (prefix % 4) as nat
    }
}

/// The short item that begins at `at`.
pub open spec fn item_at(desc: Seq<u8>, at: int) -> Item {
    let prefix = desc[at];
    Item {
        class: ((prefix / 4) % 4) as nat,
        tag: (prefix / 16) as nat,
        data: wire::le_value(desc.subrange(at + 1, at + 1 + data_len(prefix))),
    }
}

/// The short items from `at` on. Long items are stepped over; an item that is cut off by the
/// end of the descriptor ends the row.
pub open spec fn items_from(desc: Seq<u8>, at: int) -> Seq<Item>
    decreases
        if at < desc.len() {
            desc.len() - at
        } else {
            0
        },
{
    if at < 0 || at >= desc.len() {
        Seq::empty()
    } else if desc[at] == LONG_ITEM {
        if at + 1 >= desc.len() {
            Seq::empty()
        } else {
            items_from(desc, at + 3 + desc[at + 1])
        }
    } else if at + 1 + data_len(desc[at]) > desc.len() {
        Seq::empty()
    } else {
        seq![item_at(desc, at)] + items_from(desc, at + 1 + data_len(desc[at]))
    }
}

/// The short items of a descriptor.
pub open spec fn items(desc: Seq<u8>) -> Seq<Item> {
    items_from(desc, 0)
}

// ---------------------------------------------------------------------------
// The meaning: reports and their lengths
// ---------------------------------------------------------------------------

/// The global settings that main items are read under.
pub struct Globals {
    pub id: nat,
    pub size: nat,
    pub count: nat,
}

/// The settings that hold after the given items: each is what the last item that set it said.
pub open spec fn globals_after(items: Seq<Item>) -> Globals
    decreases items.len(),
{
    if items.len() == 0 {
        Globals { id: 0, size: 0, count: 0 }
    } else {
        let before = globals_after(items.drop_last());
        let last = items.last();
        if last.class != 1 {
            before
        } else if last.tag == 7 {
            Globals { size: last.data, ..before }
        } else if last.tag == 8 {
            Globals { id: last.data % 256, ..before }
        } else if last.tag == 9 {
            Globals { count: last.data, ..before }
        } else {
            before
        }
    }
}

/// The place of the report kind that a main item's tag stands for, in alphabetical order:
/// feature, input, output.
pub open spec fn kind_rank(tag: nat) -> Option<nat> {
    if tag == 0xB {
        Some(0)
    } else if tag == 8 {
        Some(1)
    } else if tag == 9 {
        Some(2)
    } else {
        None
    }
}

/// The name of the report kind at a place.
pub open spec fn kind_name(rank: nat) -> Seq<char> {
    if rank == 0 {
        "Feature"@
    } else if rank == 1 {
        "Input"@
    } else {
        "Output"@
    }
}

/// The number of slots: one for each report kind and id, ordered by kind, then by id.
pub const SLOTS: usize = 768;

/// The slot to which an item adds when it is read under the given settings.
pub open spec fn slot_of(item: Item, g: Globals) -> Option<nat> {
    if item.class == 0 && kind_rank(item.tag) is Some {
        Some(kind_rank(item.tag).unwrap() * 256 + g.id)
    } else {
        None
    }
}

/// The slot that the last of the items adds to.
pub open spec fn last_slot(items: Seq<Item>) -> Option<nat>
    recommends
        items.len() > 0,
{
    slot_of(items.last(), globals_after(items.drop_last()))
}

/// The bits that the last of the items adds to its slot: report size times report count.
pub open spec fn last_bits(items: Seq<Item>) -> nat
    recommends
        items.len() > 0,
{
    globals_after(items.drop_last()).size * globals_after(items.drop_last()).count
}

/// Some item adds to the slot.
pub open spec fn declared(items: Seq<Item>, slot: nat) -> bool
    decreases items.len(),
{
    items.len() > 0 && (last_slot(items) == Some(slot) || declared(items.drop_last(), slot))
}

/// The bits that the items add to the slot in all.
pub open spec fn total_bits(items: Seq<Item>, slot: nat) -> nat
    decreases items.len(),
{
    if items.len() == 0 {
        0
    } else {
        total_bits(items.drop_last(), slot) + if last_slot(items) == Some(slot) {
            last_bits(items)
        } else {
            0
        }
    }
}

/// No length on the way exceeds what 32 bits hold.
pub open spec fn lengths_fit(items: Seq<Item>) -> bool
    decreases items.len(),
{
    items.len() == 0 || {
        &&& lengths_fit(items.drop_last())
        &&& last_slot(items) matches Some(slot) ==> {
            &&& last_bits(items) <= u32::MAX
            &&& total_bits(items, slot) <= u32::MAX
        }
    }
}

/// The report in a slot that holds the given number of bits.
pub open spec fn report_in(slot: nat, bits: nat) -> ReportView {
    ReportView {
        kind: kind_name(slot / 256),
        id: slot % 256,
        total_bits: bits,
        total_bytes: (bits + 7) / 8,
    }
}

/// The reports declared in the first `n` slots, in the order of the slots.
pub open spec fn reports_below(items: Seq<Item>, n: nat) -> Seq<ReportView>
    decreases n,
{
    if n == 0 {
        Seq::empty()
    } else {
        let before = reports_below(items, (n - 1) as nat);
        let slot = (n - 1) as nat;
        if declared(items, slot) {
            before.push(report_in(slot, total_bits(items, slot)))
        } else {
            before
        }
    }
}

/// The reports that a descriptor declares, ordered by kind, then by id.
pub open spec fn reports_of(desc: Seq<u8>) -> Seq<ReportView> {
    reports_below(items(desc), SLOTS as nat)
}

// ---------------------------------------------------------------------------
// Parsing
// ---------------------------------------------------------------------------

/// The value of up to four data bytes.
fn read_data(desc: &[u8], at: usize, n: usize) -> (data: u32)
    requires
        n == 0 || n == 1 || n == 2 || n == 4,
        at + n <= desc@.len(),
    ensures
        data as nat == wire::le_value(desc@.subrange(at as int, at + n)),
{
    let ghost bytes = desc@.subrange(at as int, at + n);
    proof {
        reveal_with_fuel(wire::le_value, 5);
    }
    if n == 0 {
        0
    } else if n == 1 {
        desc[at] as u32
    } else if n == 2 {
        assert(bytes.skip(1)[0] == bytes[1]);
        desc[at] as u32 + 256 * (desc[at + 1] as u32)
    } else {
        assert(bytes.skip(1)[0] == bytes[1]);
        assert(bytes.skip(1).skip(1)[0] == bytes[2]);
        assert(bytes.skip(1).skip(1).skip(1)[0] == bytes[3]);
        desc[at] as u32 + 256 * (desc[at + 1] as u32) + 65536 * (desc[at + 2] as u32) + 16777216 * (
        desc[at + 3] as u32)
    }
}

/// The row of items only depends on what is read before and after a place.
proof fn lemma_items_step(desc: Seq<u8>, done: Seq<Item>, at: int)
    requires
        0 <= at < desc.len(),
        desc[at] != LONG_ITEM,
        at + 1 + data_len(desc[at]) <= desc.len(),
    ensures
        done + items_from(desc, at) == done.push(item_at(desc, at)) + items_from(
            desc,
            at + 1 + data_len(desc[at]),
        ),
{
    assert(done + items_from(desc, at) =~= done.push(item_at(desc, at)) + items_from(
        desc,
        at + 1 + data_len(desc[at]),
    ));
}

/// Where the lengths of a row of items fit, so do those of its beginnings.
proof fn lemma_fit_prefix(all: Seq<Item>, k: int)
    requires
        0 <= k <= all.len(),
        lengths_fit(all),
    ensures
        lengths_fit(all.take(k)),
    decreases all.len() - k,
{
    if k == all.len() {
        assert(all.take(k) =~= all);
    } else {
        lemma_fit_prefix(all, k + 1);
        assert(all.take(k + 1).drop_last() =~= all.take(k));
    }
}

/// What the slots hold after a row of items.
spec fn table_holds(table: Seq<Option<u32>>, items: Seq<Item>) -> bool {
    &&& table.len() == SLOTS
    &&& forall|s: int|
        0 <= s < SLOTS ==> {
            &&& #[trigger] table[s] is Some == declared(items, s as nat)
            &&& table[s] matches Some(bits) ==> bits as nat == total_bits(items, s as nat)
            &&& table[s] is None ==> total_bits(items, s as nat) == 0
        }
}

/// A table with nothing in it.
fn empty_table() -> (table: Vec<Option<u32>>)
    ensures
        table_holds(table@, Seq::<Item>::empty()),
{
    let mut table: Vec<Option<u32>> = Vec::new();
    while table.len() < SLOTS
        invariant
            table@.len() <= SLOTS,
            forall|s: int| 0 <= s < table@.len() ==> #[trigger] table@[s] is None,
        decreases SLOTS - table@.len(),
    {
        table.push(None);
    }
    table
}

/// Fills the table from a descriptor; `None` where a length does not fit in 32 bits.
fn fill_table(desc: &[u8]) -> (table: Option<Vec<Option<u32>>>)
    ensures
        table is Some == lengths_fit(items(desc@)),
        table matches Some(t) ==> table_holds(t@, items(desc@)),
{
    let mut table = empty_table();
    let mut id: u8 = 0;
    let mut size: u32 = 0;
    let mut count: u32 = 0;
    let mut at: usize = 0;
    let ghost mut done: Seq<Item> = Seq::empty();
    assert(done + items_from(desc@, 0) =~= items(desc@));
    while at < desc.len()
        invariant_except_break
            items(desc@) == done + items_from(desc@, at as int),
            lengths_fit(done),
            table_holds(table@, done),
            globals_after(done) == (Globals { id: id as nat, size: size as nat, count: count as nat }),
        ensures
            items(desc@) == done,
            lengths_fit(done),
            table_holds(table@, done),
        decreases desc@.len() - at,
    {
        let prefix: u8 = desc[at];
        let left: usize = desc.len() - at;
        if prefix == LONG_ITEM {
            if left < 2 {
                assert(done + Seq::<Item>::empty() =~= done);
                break;
            }
            let step: usize = 3 + desc[at + 1] as usize;
            if step >= left {
                assert(items_from(desc@, at + step) =~= Seq::<Item>::empty());
                assert(done + Seq::<Item>::empty() =~= done);
                break;
            }
            at += step;
            continue;
        }
        let code: u8 = prefix % 4;
        let n: usize = if code == 3 {
            4
        } else {
            code as usize
        };
        if left < 1 + n {
            assert(done + Seq::<Item>::empty() =~= done);
            break;
        }
        let class: u8 = (prefix / 4) % 4;
        let tag: u8 = prefix / 16;
        let data: u32 = read_data(desc, at + 1, n);
        let ghost item = item_at(desc@, at as int);
        let ghost more = done.push(item);
        proof {
            lemma_items_step(desc@, done, at as int);
            assert(more.drop_last() =~= done);
        }
        if class == 0 && (tag == 0xB || tag == 8 || tag == 9) {
            let rank: usize = if tag == 0xB {
                0
            } else if tag == 8 {
                1
            } else {
                2
            };
            let slot: usize = rank * 256 + id as usize;
            assert(last_slot(more) == Some(slot as nat));
            assert(size as u64 * count as u64 <= 0xffff_ffffu64 * 0xffff_ffffu64) by (nonlinear_arith)
                requires
                    size <= 0xffff_ffffu32,
                    count <= 0xffff_ffffu32,
            ;
            let bits: u64 = size as u64 * count as u64;
            let before: u64 = match table[slot] {
                Some(b) => b as u64,
                None => 0,
            };
            if bits > 0xffff_ffff || before + bits > 0xffff_ffff {
                proof {
                    assert(!lengths_fit(more));
                    if lengths_fit(items(desc@)) {
                        lemma_fit_prefix(items(desc@), more.len() as int);
                        assert(items(desc@).take(more.len() as int) =~= more);
                    }
                }
                return None;
            }
            table.set(slot, Some((before + bits) as u32));
            assert(table_holds(table@, more));
        } else {
            assert(last_slot(more) is None);
            assert(table_holds(table@, more));
            if class == 1 {
                if tag == 7 {
                    size = data;
                } else if tag == 8 {
                    id = (data % 256) as u8;
                } else if tag == 9 {
                    count = data;
                }
            }
        }
        proof {
            done = more;
        }
        if left == 1 + n {
            assert(items_from(desc@, desc@.len() as int) =~= Seq::<Item>::empty());
            assert(done + Seq::<Item>::empty() =~= done);
        }
        at += 1 + n;
    }
    Some(table)
}

/// The name of a report kind.
fn kind_label(rank: usize) -> (name: &'static str)
    ensures
        name@ == kind_name(rank as nat),
{
    if rank == 0 {
        "Feature"
    } else if rank == 1 {
        "Input"
    } else {
        "Output"
    }
}

/// The reports that a descriptor declares, ordered by kind, then by id; `None` exactly where a
/// report's length in bits does not fit in 32 bits.
pub fn checked_descriptor_reports(desc: &[u8]) -> (reports: Option<Vec<ReportInfo>>)
    ensures
        reports is Some == lengths_fit(items(desc@)),
        reports matches Some(list) ==> report_views(list@) == reports_of(desc@),
{
    let table = match fill_table(desc) {
        Some(t) => t,
        None => {
            return None;
        },
    };
    let mut reports: Vec<ReportInfo> = Vec::new();
    let mut slot: usize = 0;
    assert(report_views(reports@) =~= Seq::<ReportView>::empty());
    while slot < SLOTS
        invariant
            slot <= SLOTS,
            table_holds(table@, items(desc@)),
            report_views(reports@) == reports_below(items(desc@), slot as nat),
        decreases SLOTS - slot,
    {
        if let Some(bits) = table[slot] {
            let bytes: u32 = if bits % 8 == 0 {
                bits / 8
            } else {
                bits / 8 + 1
            };
            let ghost before = report_views(reports@);
            reports.push(
                ReportInfo {
                    kind: kind_label(slot / 256),
                    id: (slot % 256) as u8,
                    total_bits: bits,
                    total_bytes: bytes,
                },
            );
            assert(report_views(reports@) =~= before.push(reports@.last()@));
            assert(reports@.last()@ == report_in(slot as nat, bits as nat));
        }
        slot += 1;
    }
    Some(reports)
}

/// Minimal HID report descriptor parser: walks short items and accumulates
/// report size times report count per report id and main item (input, output, feature).
/// Enough to learn which feature report ids exist and how big each one is.
pub fn parse_hid_descriptor_reports(desc: &[u8]) -> (reports: Vec<ReportInfo>)
    requires
        lengths_fit(items(desc@)),
    ensures
        report_views(reports@) == reports_of(desc@),
{
    match checked_descriptor_reports(desc) {
        Some(reports) => reports,
        None => Vec::new(),
    }
}

// ---------------------------------------------------------------------------
// What holds of every descriptor
// ---------------------------------------------------------------------------

/// The declared slots among the first `n`, in their order.
pub open spec fn declared_slots(items: Seq<Item>, n: nat) -> Seq<nat>
    decreases n,
{
    if n == 0 {
        Seq::empty()
    } else {
        let before = declared_slots(items, (n - 1) as nat);
        if declared(items, (n - 1) as nat) {
            before.push((n - 1) as nat)
        } else {
            before
        }
    }
}

pub(crate) proof fn lemma_reports_follow_slots(items: Seq<Item>, n: nat)
    ensures
        ({
            let slots = declared_slots(items, n);
            let reports = reports_below(items, n);
            &&& reports.len() == slots.len()
            &&& forall|i: int|
                0 <= i < slots.len() ==> {
                    &&& #[trigger] slots[i] < n
                    &&& declared(items, slots[i])
                    &&& reports[i] == report_in(slots[i], total_bits(items, slots[i]))
                }
            &&& forall|i: int, j: int|
                0 <= i < j < slots.len() ==> #[trigger] slots[i] < #[trigger] slots[j]
            &&& forall|slot: nat| slot < n && declared(items, slot) ==> #[trigger] slots.contains(slot)
        }),
    decreases n,
{
    if n > 0 {
        let last = (n - 1) as nat;
        lemma_reports_follow_slots(items, last);
        let before = declared_slots(items, last);
        let slots = declared_slots(items, n);
        assert forall|slot: nat| slot < n && declared(items, slot) implies #[trigger] slots.contains(
            slot,
        ) by {
            if slot < last {
                assert(before.contains(slot));
                let i = choose|i: int| 0 <= i < before.len() && before[i] == slot;
                assert(slots[i] == slot);
            } else {
                assert(slots[slots.len() - 1] == slot);
            }
        }
    }
}

/// Reports are listed by kind in alphabetical order (feature, input, output) and within a kind
/// by rising id. Every declared report is listed, exactly once, with the sum of its fields as
/// its length, and none is listed that is not declared.
pub proof fn law_reports_are_complete_and_ordered(desc: Seq<u8>)
    ensures
        ({
            let slots = declared_slots(items(desc), SLOTS as nat);
            let reports = reports_of(desc);
            &&& reports.len() == slots.len()
            &&& forall|i: int|
                0 <= i < slots.len() ==> {
                    &&& declared(items(desc), #[trigger] slots[i])
                    &&& reports[i].kind == kind_name(slots[i] / 256)
                    &&& reports[i].id == slots[i] % 256
                    &&& reports[i].total_bits == total_bits(items(desc), slots[i])
                }
            &&& forall|i: int, j: int|
                0 <= i < j < slots.len() ==> #[trigger] slots[i] < #[trigger] slots[j]
            &&& forall|slot: nat|
                declared(items(desc), slot) ==> #[trigger] slots.contains(slot)
        }),
{
    lemma_reports_follow_slots(items(desc), SLOTS as nat);
    assert forall|slot: nat| declared(items(desc), slot) implies #[trigger] declared_slots(
        items(desc),
        SLOTS as nat,
    ).contains(slot) by {
        lemma_declared_is_slot(items(desc), slot);
    }
}

proof fn lemma_id_is_byte(items: Seq<Item>)
    ensures
        globals_after(items).id < 256,
    decreases items.len(),
{
    if items.len() > 0 {
        lemma_id_is_byte(items.drop_last());
    }
}

proof fn lemma_declared_is_slot(items: Seq<Item>, slot: nat)
    requires
        declared(items, slot),
    ensures
        slot < SLOTS,
    decreases items.len(),
{
    lemma_id_is_byte(items.drop_last());
    if last_slot(items) != Some(slot) {
        lemma_declared_is_slot(items.drop_last(), slot);
    }
}

/// The bytes of a report hold its bits, and no byte is to spare.
pub proof fn law_bytes_hold_the_bits(desc: Seq<u8>, i: int)
    requires
        0 <= i < reports_of(desc).len(),
    ensures
        reports_of(desc)[i].total_bits <= 8 * reports_of(desc)[i].total_bytes,
        8 * reports_of(desc)[i].total_bytes < reports_of(desc)[i].total_bits + 8,
{
    lemma_reports_follow_slots(items(desc), SLOTS as nat);
    let slot = declared_slots(items(desc), SLOTS as nat)[i];
}

/// Reading items from `at` on comes out exactly at the end: no item is cut off.
pub open spec fn ends_whole(desc: Seq<u8>, at: int) -> bool
    decreases
        if at < desc.len() {
            desc.len() - at
        } else {
            0
        },
{
    if at < 0 || at >= desc.len() {
        at == desc.len()
    } else if desc[at] == LONG_ITEM {
        at + 1 < desc.len() && ends_whole(desc, at + 3 + desc[at + 1])
    } else {
        ends_whole(desc, at + 1 + data_len(desc[at]))
    }
}

/// The bytes are a row of whole items.
pub open spec fn whole_items(desc: Seq<u8>) -> bool {
    ends_whole(desc, 0)
}

/// An item that neither adds to a report nor changes a setting under which others do.
pub open spec fn idle(item: Item) -> bool {
    &&& item.class == 0 ==> kind_rank(item.tag) is None
    &&& item.class == 1 ==> item.tag != 7 && item.tag != 8 && item.tag != 9
}

/// The bytes begin an item and end before it does.
pub open spec fn cut_off(tail: Seq<u8>) -> bool {
    tail.len() > 0 && if tail[0] == LONG_ITEM {
        tail.len() == 1 || tail.len() < 3 + tail[1]
    } else {
        tail.len() < 1 + data_len(tail[0])
    }
}

/// A long item, whatever its data and whatever whole items stand before it, declares nothing:
/// a descriptor declares the same without it, and its lengths fit as they do without it.
pub proof fn law_long_items_are_skipped(
    before: Seq<u8>,
    size: u8,
    tag: u8,
    data: Seq<u8>,
    after: Seq<u8>,
)
    requires
        whole_items(before),
        data.len() == size,
    ensures
        reports_of(before + (seq![LONG_ITEM, size, tag] + data) + after) == reports_of(
            before + after,
        ),
        lengths_fit(items(before + (seq![LONG_ITEM, size, tag] + data) + after)) == lengths_fit(
            items(before + after),
        ),
{
    let long = seq![LONG_ITEM, size, tag] + data;
    assert((long + after).skip(3 + size) =~= after);
    lemma_items_shift(long + after, after, 3 + size, 0);
    assert(before + long + after =~= before + (long + after));
    lemma_items_after_whole(before, long + after);
    lemma_items_after_whole(before, after);
}

/// A short item that neither adds to a report nor changes a setting declares nothing, whatever
/// whole items stand before it: a descriptor declares the same without it, and its lengths fit
/// as they do without it.
pub proof fn law_idle_items_are_skipped(before: Seq<u8>, item: Seq<u8>, after: Seq<u8>)
    requires
        whole_items(before),
        item.len() > 0,
        item[0] != LONG_ITEM,
        item.len() == 1 + data_len(item[0]),
        idle(item_at(item, 0)),
    ensures
        reports_of(before + item + after) == reports_of(before + after),
        lengths_fit(items(before + item + after)) == lengths_fit(items(before + after)),
{
    let i = item_at(item, 0);
    let head = item + after;
    let n = item.len() as int;
    assert(head.skip(n) =~= after);
    lemma_items_shift(head, after, n, 0);
    assert(head.subrange(1, n) =~= item.subrange(1, n));
    assert(item_at(head, 0) == i);
    assert(items(head) == seq![i] + items(after));
    assert(before + item + after =~= before + head);
    lemma_items_after_whole(before, head);
    lemma_items_after_whole(before, after);
    let x = items(before);
    let y = items(after);
    assert(items(before) + items(head) =~= x + seq![i] + y);
    lemma_idle_item(x, i, y);
    assert forall|slot: nat| declared(x + seq![i] + y, slot) == declared(x + y, slot) && total_bits(
        x + seq![i] + y,
        slot,
    ) == total_bits(x + y, slot) by {
        lemma_idle_in_slot(x, i, y, slot);
    }
    lemma_same_reports(x + seq![i] + y, x + y, SLOTS as nat);
}

/// An item that the end of the descriptor cuts off is ignored: the whole items before it declare
/// what they declare without it, and their lengths fit as they do without it.
pub proof fn law_cut_off_item_is_ignored(before: Seq<u8>, tail: Seq<u8>)
    requires
        whole_items(before),
        cut_off(tail),
    ensures
        reports_of(before + tail) == reports_of(before),
        lengths_fit(items(before + tail)) == lengths_fit(items(before)),
{
    lemma_items_after_whole(before, tail);
    reveal_with_fuel(items_from, 2);
    assert(items(tail) =~= Seq::empty());
    assert(items(before) + items(tail) =~= items(before));
}

/// The items of bytes that follow whole items come after theirs.
pub(crate) proof fn lemma_items_after_whole(before: Seq<u8>, after: Seq<u8>)
    requires
        whole_items(before),
    ensures
        items(before + after) == items(before) + items(after),
{
    lemma_items_join(before, after, 0);
    assert((before + after).skip(before.len() as int) =~= after);
    lemma_items_shift(before + after, after, before.len() as int, 0);
}

proof fn lemma_items_join(before: Seq<u8>, after: Seq<u8>, at: int)
    requires
        0 <= at,
        ends_whole(before, at),
    ensures
        items_from(before + after, at) == items_from(before, at) + items_from(
            before + after,
            before.len() as int,
        ),
    decreases
        if at < before.len() {
            before.len() - at
        } else {
            0
        },
{
    let all = before + after;
    let rest = items_from(all, before.len() as int);
    if at < before.len() {
        if before[at] == LONG_ITEM {
            lemma_items_join(before, after, at + 3 + before[at + 1]);
        } else {
            let next = at + 1 + data_len(before[at]);
            lemma_items_join(before, after, next);
            reveal_with_fuel(ends_whole, 2);
            assert(next <= before.len());
            assert(all.subrange(at + 1, next) =~= before.subrange(at + 1, next));
            assert(items_from(all, at) =~= items_from(before, at) + rest);
        }
    } else {
        assert(items_from(before, at) + rest =~= rest);
    }
}

/// An idle item among others changes neither the settings nor whether the lengths fit.
proof fn lemma_idle_item(x: Seq<Item>, i: Item, y: Seq<Item>)
    requires
        idle(i),
    ensures
        globals_after(x + seq![i] + y) == globals_after(x + y),
        lengths_fit(x + seq![i] + y) == lengths_fit(x + y),
    decreases y.len(),
{
    let with = x + seq![i] + y;
    let without = x + y;
    if y.len() == 0 {
        assert(with.drop_last() =~= x);
        assert(without =~= x);
    } else {
        lemma_idle_item(x, i, y.drop_last());
        assert(with.drop_last() =~= x + seq![i] + y.drop_last());
        assert(without.drop_last() =~= x + y.drop_last());
        if let Some(slot) = last_slot(without) {
            lemma_idle_in_slot(x, i, y, slot);
        }
    }
}

/// An idle item among others adds to no slot.
proof fn lemma_idle_in_slot(x: Seq<Item>, i: Item, y: Seq<Item>, slot: nat)
    requires
        idle(i),
    ensures
        globals_after(x + seq![i] + y) == globals_after(x + y),
        declared(x + seq![i] + y, slot) == declared(x + y, slot),
        total_bits(x + seq![i] + y, slot) == total_bits(x + y, slot),
    decreases y.len(),
{
    let with = x + seq![i] + y;
    let without = x + y;
    if y.len() == 0 {
        assert(with.drop_last() =~= x);
        assert(without =~= x);
    } else {
        lemma_idle_in_slot(x, i, y.drop_last(), slot);
        assert(with.drop_last() =~= x + seq![i] + y.drop_last());
        assert(without.drop_last() =~= x + y.drop_last());
    }
}

/// Rows of items that add the same to every slot declare the same reports.
proof fn lemma_same_reports(x: Seq<Item>, y: Seq<Item>, n: nat)
    requires
        forall|slot: nat| #[trigger] declared(x, slot) == declared(y, slot),
        forall|slot: nat| #[trigger] total_bits(x, slot) == total_bits(y, slot),
    ensures
        reports_below(x, n) == reports_below(y, n),
    decreases n,
{
    if n > 0 {
        let slot = (n - 1) as nat;
        lemma_same_reports(x, y, slot);
        assert(declared(x, slot) == declared(y, slot));
        assert(total_bits(x, slot) == total_bits(y, slot));
    }
}

pub(crate) proof fn lemma_items_shift(desc: Seq<u8>, rest: Seq<u8>, by: int, at: int)
    requires
        0 <= by <= desc.len(),
        desc.skip(by) == rest,
        0 <= at,
    ensures
        items_from(desc, by + at) == items_from(rest, at),
    decreases
        if at < rest.len() {
            rest.len() - at
        } else {
            0
        },
{
    if at < rest.len() {
        assert(rest[at] == desc[by + at]);
        if rest[at] == LONG_ITEM {
            if at + 1 < rest.len() {
                assert(rest[at + 1] == desc[by + at + 1]);
                lemma_items_shift(desc, rest, by, at + 3 + rest[at + 1]);
            }
        } else if at + 1 + data_len(rest[at]) <= rest.len() {
            assert(rest.subrange(at + 1, at + 1 + data_len(rest[at])) =~= desc.subrange(
                by + at + 1,
                by + at + 1 + data_len(rest[at]),
            ));
            lemma_items_shift(desc, rest, by, at + 1 + data_len(rest[at]));
        }
    }
}

} // verus!
