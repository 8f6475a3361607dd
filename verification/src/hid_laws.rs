//! What an item of a report descriptor does to the reports that the descriptor declares.

use crate::hid::{self, Item, ReportView};
use crate::wire;
use vstd::prelude::*;

verus! {

// ---------------------------------------------------------------------------
// Items as bytes
// ---------------------------------------------------------------------------

/// The data of a short item: none, one, two or four bytes.
pub open spec fn is_data(data: Seq<u8>) -> bool {
    data.len() == 0 || data.len() == 1 || data.len() == 2 || data.len() == 4
}

/// The number that the data of a short item stands for, the lowest byte first.
pub open spec fn data_value(data: Seq<u8>) -> nat {
    if data.len() == 0 {
        0
    } else if data.len() == 1 {
        data[0] as nat
    } else if data.len() == 2 {
        (data[0] + 0x100 * data[1]) as nat
    } else {
        (data[0] + 0x100 * data[1] + 0x1_0000 * data[2] + 0x100_0000 * data[3]) as nat
    }
}

/// There is a short item with this type, tag and data. The one prefix that is left out is that of
/// a long item.
pub open spec fn is_short(class: nat, tag: nat, data: Seq<u8>) -> bool {
    &&& class < 4
    &&& tag < 16
    &&& is_data(data)
    &&& !(class == 3 && tag == 15 && data.len() == 2)
}

/// A short item: a prefix that names tag, type and length of the data, then the data. The types
/// are 0 for main, 1 for global and 2 for local items; 3 has no meaning.
pub open spec fn short_item(class: nat, tag: nat, data: Seq<u8>) -> Seq<u8> {
    seq![
        (16 * tag + 4 * class + if data.len() == 4 {
            3
        } else {
            data.len()
        }) as u8,
    ] + data
}

/// A short item is read as its type, its tag and the number in its data, wherever it stands
/// behind whole items, and what follows it is read as if it stood alone.
pub proof fn law_short_item_is_read(
    before: Seq<u8>,
    class: nat,
    tag: nat,
    data: Seq<u8>,
    after: Seq<u8>,
)
    requires
        hid::whole_items(before),
        is_short(class, tag, data),
    ensures
        hid::items(before + short_item(class, tag, data) + after) == hid::items(before).push(
            Item { class, tag, data: data_value(data) },
        ) + hid::items(after),
{
    let item = short_item(class, tag, data);
    let rest = item + after;
    let n = item.len() as int;
    let prefix = item[0];
    let code: nat = if data.len() == 4 {
        3
    } else {
        data.len()
    };
    assert(prefix == 16 * tag + 4 * class + code);
    assert(prefix % 4 == code && (prefix / 4) % 4 == class && prefix / 16 == tag);
    assert(rest.subrange(1, n) =~= data);
    reveal_with_fuel(wire::le_value, 5);
    if data.len() > 1 {
        assert(data.skip(1)[0] == data[1]);
    }
    if data.len() > 2 {
        assert(data.skip(1).skip(1)[0] == data[2]);
        assert(data.skip(1).skip(1).skip(1)[0] == data[3]);
    }
    let read = Item { class, tag, data: data_value(data) };
    assert(hid::item_at(rest, 0) == read);
    assert(rest.skip(n) =~= after);
    hid::lemma_items_shift(rest, after, n, 0);
    assert(hid::items(rest) == seq![read] + hid::items(after));
    assert(before + item + after =~= before + rest);
    hid::lemma_items_after_whole(before, rest);
    assert(hid::items(before) + (seq![read] + hid::items(after)) =~= hid::items(before).push(read)
        + hid::items(after));
}

/// A long item: its prefix, the length of its data, a tag, and the data.
pub open spec fn long_item(tag: u8, data: Seq<u8>) -> Seq<u8> {
    seq![0xFEu8, data.len() as u8, tag] + data
}

/// A long item is passed over, wherever it stands behind whole items.
pub proof fn law_long_item_is_passed_over(before: Seq<u8>, tag: u8, data: Seq<u8>, after: Seq<u8>)
    requires
        hid::whole_items(before),
        data.len() < 256,
    ensures
        hid::items(before + long_item(tag, data) + after) == hid::items(before) + hid::items(after),
{
    let rest = long_item(tag, data) + after;
    let n = long_item(tag, data).len() as int;
    assert(rest.skip(n) =~= after);
    hid::lemma_items_shift(rest, after, n, 0);
    assert(before + long_item(tag, data) + after =~= before + rest);
    hid::lemma_items_after_whole(before, rest);
}

/// A part of an item at the end of a descriptor is not read, and neither is what was left out.
pub proof fn law_part_of_an_item_is_not_read(
    before: Seq<u8>,
    class: nat,
    tag: nat,
    data: Seq<u8>,
    long_tag: u8,
    long_data: Seq<u8>,
    n: int,
)
    requires
        hid::whole_items(before),
        is_short(class, tag, data),
        long_data.len() < 256,
        0 <= n,
    ensures
        n < short_item(class, tag, data).len() ==> hid::items(
            before + short_item(class, tag, data).take(n),
        ) == hid::items(before),
        n < long_item(long_tag, long_data).len() ==> hid::items(
            before + long_item(long_tag, long_data).take(n),
        ) == hid::items(before),
{
    let x = hid::items(before);
    assert(x + Seq::<Item>::empty() =~= x);
    reveal_with_fuel(hid::items_from, 2);
    let short = short_item(class, tag, data);
    if n < short.len() {
        let part = short.take(n);
        hid::lemma_items_after_whole(before, part);
        if n > 0 {
            assert(part[0] == short[0]);
        }
        assert(hid::items(part) =~= Seq::empty());
    }
    let long = long_item(long_tag, long_data);
    if n < long.len() {
        let part = long.take(n);
        hid::lemma_items_after_whole(before, part);
        if n > 0 {
            assert(part[0] == 0xFE);
        }
        if n > 1 {
            assert(part[1] == long[1]);
        }
        assert(hid::items(part) =~= Seq::empty());
    }
}

/// Reading comes to the end of whole items, whatever follows them.
proof fn lemma_reads_up_to(desc: Seq<u8>, more: Seq<u8>, at: int)
    requires
        0 <= at <= desc.len(),
        hid::ends_whole(desc, at),
    ensures
        hid::ends_whole(desc + more, at) == hid::ends_whole(desc + more, desc.len() as int),
    decreases desc.len() - at,
{
    let all = desc + more;
    if at < desc.len() {
        assert(all[at] == desc[at]);
        if desc[at] == 0xFE {
            assert(all[at + 1] == desc[at + 1]);
            lemma_ends_inside(desc, at + 3 + desc[at + 1]);
            lemma_reads_up_to(desc, more, at + 3 + desc[at + 1]);
        } else {
            let next = at + 1 + hid::data_len(desc[at]);
            lemma_ends_inside(desc, next);
            lemma_reads_up_to(desc, more, next);
        }
    }
}

proof fn lemma_ends_inside(desc: Seq<u8>, at: int)
    requires
        0 <= at,
        hid::ends_whole(desc, at),
    ensures
        at <= desc.len(),
{
}

/// Every row of short and long items is a row of whole items.
pub proof fn law_items_make_whole_items(
    desc: Seq<u8>,
    class: nat,
    tag: nat,
    data: Seq<u8>,
    long_tag: u8,
    long_data: Seq<u8>,
)
    requires
        hid::whole_items(desc),
        is_short(class, tag, data),
        long_data.len() < 256,
    ensures
        hid::whole_items(Seq::empty()),
        hid::whole_items(desc + short_item(class, tag, data)),
        hid::whole_items(desc + long_item(long_tag, long_data)),
{
    reveal_with_fuel(hid::ends_whole, 2);
    let short = short_item(class, tag, data);
    let long = long_item(long_tag, long_data);
    lemma_reads_up_to(desc, short, 0);
    lemma_reads_up_to(desc, long, 0);
    let n = desc.len() as int;
    assert((desc + short)[n] == short[0]);
    assert(short[0] % 4 == if data.len() == 4 {
        3
    } else {
        data.len()
    });
    assert((desc + long)[n] == 0xFE);
    assert((desc + long)[n + 1] == long[1]);
}

/// Behind whole items, the last item of a descriptor.
proof fn lemma_last_item(desc: Seq<u8>, class: nat, tag: nat, data: Seq<u8>)
    requires
        hid::whole_items(desc),
        is_short(class, tag, data),
    ensures
        hid::items(desc + short_item(class, tag, data)) == hid::items(desc).push(
            Item { class, tag, data: data_value(data) },
        ),
{
    let item = short_item(class, tag, data);
    law_short_item_is_read(desc, class, tag, data, Seq::empty());
    assert(desc + item + Seq::empty() =~= desc + item);
    let all = hid::items(desc).push(Item { class, tag, data: data_value(data) });
    assert(all + hid::items(Seq::empty()) =~= all);
}

// ---------------------------------------------------------------------------
// Reports
// ---------------------------------------------------------------------------

/// The list holds a report of the kind and id that is so many bits long.
pub open spec fn lists(reports: Seq<ReportView>, kind: Seq<char>, id: nat, bits: nat) -> bool {
    exists|i: int|
        {
            &&& 0 <= i < reports.len()
            &&& (#[trigger] reports[i]).kind == kind
            &&& reports[i].id == id
            &&& reports[i].total_bits == bits
        }
}

/// The global items with the tag leave the value: the last of them says it, or there is none and
/// it is zero.
pub open spec fn setting(items: Seq<Item>, tag: nat, value: nat) -> bool {
    ||| value == 0 && forall|k: int|
        0 <= k < items.len() ==> !((#[trigger] items[k]).class == 1 && items[k].tag == tag)
    ||| exists|j: int|
        {
            &&& 0 <= j < items.len()
            &&& (#[trigger] items[j]).class == 1
            &&& items[j].tag == tag
            &&& items[j].data == value
            &&& forall|k: int|
                j < k < items.len() ==> !((#[trigger] items[k]).class == 1 && items[k].tag == tag)
        }
}

proof fn lemma_setting_before(items: Seq<Item>, tag: nat, value: nat)
    requires
        items.len() > 0,
        setting(items, tag, value),
        !(items.last().class == 1 && items.last().tag == tag),
    ensures
        setting(items.drop_last(), tag, value),
{
    let less = items.drop_last();
    let none = forall|k: int|
        0 <= k < items.len() ==> !((#[trigger] items[k]).class == 1 && items[k].tag == tag);
    if value == 0 && none {
        assert forall|k: int| 0 <= k < less.len() implies !((#[trigger] less[k]).class == 1
            && less[k].tag == tag) by {
            assert(less[k] == items[k]);
        }
    } else {
        let j = choose|j: int|
            {
                &&& 0 <= j < items.len()
                &&& (#[trigger] items[j]).class == 1
                &&& items[j].tag == tag
                &&& items[j].data == value
                &&& forall|k: int|
                    j < k < items.len() ==> !((#[trigger] items[k]).class == 1 && items[k].tag
                        == tag)
            };
        assert(items[items.len() - 1] == items.last());
        assert(less[j] == items[j]);
        assert forall|k: int| j < k < less.len() implies !((#[trigger] less[k]).class == 1
            && less[k].tag == tag) by {
            assert(less[k] == items[k]);
        }
    }
}

proof fn lemma_settings_hold(items: Seq<Item>, size: nat, count: nat, id: nat)
    requires
        setting(items, 7, size),
        setting(items, 9, count),
        setting(items, 8, id),
    ensures
        hid::globals_after(items) == (hid::Globals { id: id % 256, size, count }),
    decreases items.len(),
{
    if items.len() > 0 {
        let last = items.last();
        let n = items.len() - 1;
        assert(items[n] == last);
        let less = items.drop_last();
        let before = hid::globals_after(less);
        if !(last.class == 1 && last.tag == 7) {
            lemma_setting_before(items, 7, size);
        }
        if !(last.class == 1 && last.tag == 9) {
            lemma_setting_before(items, 9, count);
        }
        if !(last.class == 1 && last.tag == 8) {
            lemma_setting_before(items, 8, id);
        }
        if last.class == 1 && last.tag == 7 {
            lemma_some_setting(less, 7);
            let s = choose|s: nat| setting(less, 7, s);
            lemma_settings_hold(less, s, count, id);
        } else if last.class == 1 && last.tag == 9 {
            lemma_some_setting(less, 9);
            let c = choose|c: nat| setting(less, 9, c);
            lemma_settings_hold(less, size, c, id);
        } else if last.class == 1 && last.tag == 8 {
            lemma_some_setting(less, 8);
            let i = choose|i: nat| setting(less, 8, i);
            lemma_settings_hold(less, size, count, i);
        } else {
            lemma_settings_hold(less, size, count, id);
        }
    }
}

/// There always is a value that the items leave.
proof fn lemma_some_setting(items: Seq<Item>, tag: nat)
    ensures
        exists|v: nat| setting(items, tag, v),
    decreases items.len(),
{
    if items.len() == 0 {
        assert(setting(items, tag, 0));
    } else {
        let less = items.drop_last();
        let n = items.len() - 1;
        assert(items[n] == items.last());
        if items.last().class == 1 && items.last().tag == tag {
            assert(setting(items, tag, items[n].data));
        } else {
            lemma_some_setting(less, tag);
            let v = choose|v: nat| setting(less, tag, v);
            let none = forall|k: int|
                0 <= k < less.len() ==> !((#[trigger] less[k]).class == 1 && less[k].tag == tag);
            if v == 0 && none {
                assert forall|k: int| 0 <= k < items.len() implies !((
                #[trigger] items[k]).class == 1 && items[k].tag == tag) by {
                    if k < n {
                        assert(less[k] == items[k]);
                    }
                }
                assert(setting(items, tag, 0));
            } else {
                let j = choose|j: int|
                    {
                        &&& 0 <= j < less.len()
                        &&& (#[trigger] less[j]).class == 1
                        &&& less[j].tag == tag
                        &&& less[j].data == v
                        &&& forall|k: int|
                            j < k < less.len() ==> !((#[trigger] less[k]).class == 1
                                && less[k].tag == tag)
                    };
                assert(items[j] == less[j]);
                assert forall|k: int| j < k < items.len() implies !((#[trigger] items[k]).class == 1
                    && items[k].tag == tag) by {
                    if k < n {
                        assert(less[k] == items[k]);
                    }
                }
                assert(setting(items, tag, v));
            }
        }
    }
}

/// The three kinds have names of their own.
proof fn lemma_kind_names()
    ensures
        hid::kind_name(0) == "Feature"@,
        hid::kind_name(1) == "Input"@,
        hid::kind_name(2) == "Output"@,
        "Feature"@ != "Input"@,
        "Feature"@ != "Output"@,
        "Input"@ != "Output"@,
{
    reveal_strlit("Feature");
    reveal_strlit("Input");
    reveal_strlit("Output");
    assert("Feature"@.len() == 7);
    assert("Input"@.len() == 5);
    assert("Output"@.len() == 6);
}

/// A listed report is one that is declared, and the other way round.
proof fn lemma_listed(items: Seq<Item>, rank: nat, id: nat, bits: nat)
    requires
        rank < 3,
        id < 256,
    ensures
        lists(hid::reports_below(items, 768), hid::kind_name(rank), id, bits) <==> hid::declared(
            items,
            rank * 256 + id,
        ) && hid::total_bits(items, rank * 256 + id) == bits,
{
    lemma_kind_names();
    hid::lemma_reports_follow_slots(items, 768);
    let slots = hid::declared_slots(items, 768);
    let reports = hid::reports_below(items, 768);
    let slot = rank * 256 + id;
    let kind = hid::kind_name(rank);
    if lists(reports, kind, id, bits) {
        let i = choose|i: int|
            {
                &&& 0 <= i < reports.len()
                &&& (#[trigger] reports[i]).kind == kind
                &&& reports[i].id == id
                &&& reports[i].total_bits == bits
            };
        let s = slots[i];
        assert(s < 768);
        assert(s / 256 == 0 || s / 256 == 1 || s / 256 == 2);
        assert(s / 256 == rank);
        assert(s == slot);
    }
    if hid::declared(items, slot) && hid::total_bits(items, slot) == bits {
        assert(slots.contains(slot));
        let i = choose|i: int| 0 <= i < slots.len() && slots[i] == slot;
        assert(slots[i] == slot);
        assert(slot / 256 == rank && slot % 256 == id);
        assert(reports[i].kind == kind);
    }
}

/// A list of reports holds none of an unknown kind or a larger id.
proof fn lemma_not_listed(items: Seq<Item>, kind: Seq<char>, id: nat, bits: nat)
    requires
        lists(hid::reports_below(items, 768), kind, id, bits),
    ensures
        id < 256,
        kind == "Feature"@ || kind == "Input"@ || kind == "Output"@,
{
    lemma_kind_names();
    hid::lemma_reports_follow_slots(items, 768);
    let reports = hid::reports_below(items, 768);
    let i = choose|i: int|
        {
            &&& 0 <= i < reports.len()
            &&& (#[trigger] reports[i]).kind == kind
            &&& reports[i].id == id
            &&& reports[i].total_bits == bits
        };
    let s = hid::declared_slots(items, 768)[i];
    assert(s < 768);
}

/// The kind of report that a main item with the tag adds to.
pub open spec fn kind_of(tag: nat) -> Seq<char> {
    if tag == 8 {
        "Input"@
    } else if tag == 9 {
        "Output"@
    } else {
        "Feature"@
    }
}

/// An empty descriptor declares nothing.
pub proof fn law_nothing_declares_nothing()
    ensures
        hid::reports_of(Seq::empty()) == Seq::<ReportView>::empty(),
        hid::lengths_fit(hid::items(Seq::empty())),
{
    let items = hid::items(Seq::empty());
    assert(items.len() == 0);
    lemma_no_reports(items, 768);
}

proof fn lemma_no_reports(items: Seq<Item>, n: nat)
    requires
        items.len() == 0,
    ensures
        hid::reports_below(items, n) == Seq::<ReportView>::empty(),
    decreases n,
{
    if n > 0 {
        lemma_no_reports(items, (n - 1) as nat);
    }
}

/// A main item of one of the three kinds, behind whole items, adds report size times report
/// count to the length of the report of its kind and the current id, which it declares if it was
/// not declared yet. It changes no other report. The lengths fit exactly where they did before
/// and the added and the new length are below 2 to the 32.
pub proof fn law_field_adds_its_bits(
    desc: Seq<u8>,
    tag: nat,
    data: Seq<u8>,
    size: nat,
    count: nat,
    id: nat,
)
    requires
        hid::whole_items(desc),
        tag == 8 || tag == 9 || tag == 0xB,
        is_data(data),
        setting(hid::items(desc), 7, size),
        setting(hid::items(desc), 9, count),
        setting(hid::items(desc), 8, id),
    ensures
        ({
            let old_reports = hid::reports_of(desc);
            let more = desc + short_item(0, tag, data);
            let reports = hid::reports_of(more);
            let kind = kind_of(tag);
            let here = id % 256;
            let fits = hid::lengths_fit(hid::items(more));
            let fitted = hid::lengths_fit(hid::items(desc));
            &&& forall|b: nat| #[trigger]
                lists(old_reports, kind, here, b) ==> {
                    &&& lists(reports, kind, here, b + size * count)
                    &&& fits <==> fitted && size * count <= 0xFFFF_FFFF && b + size * count
                        <= 0xFFFF_FFFF
                }
            &&& (forall|b: nat| !(#[trigger] lists(old_reports, kind, here, b))) ==> {
                &&& lists(reports, kind, here, size * count)
                &&& fits <==> fitted && size * count <= 0xFFFF_FFFF
            }
            &&& forall|k: Seq<char>, i: nat, b: nat|
                k != kind || i != here ==> (#[trigger] lists(reports, k, i, b) <==> lists(
                    old_reports,
                    k,
                    i,
                    b,
                ))
        }),
{
    let items = hid::items(desc);
    let more = desc + short_item(0, tag, data);
    lemma_last_item(desc, 0, tag, data);
    let item = Item { class: 0, tag, data: data_value(data) };
    let all = hid::items(more);
    assert(all.drop_last() =~= items);
    assert(all.last() == item);
    lemma_settings_hold(items, size, count, id);
    lemma_kind_names();
    let kind = kind_of(tag);
    let here = id % 256;
    let rank: nat = if tag == 8 {
        1
    } else if tag == 9 {
        2
    } else {
        0
    };
    let slot = rank * 256 + here;
    let n = size * count;
    let old_reports = hid::reports_of(desc);
    let reports = hid::reports_of(more);
    assert(hid::kind_name(rank) == kind);
    assert(hid::last_slot(all) == Some(slot));
    assert(hid::last_bits(all) == n);
    let before = hid::total_bits(items, slot);
    lemma_listed(all, rank, here, before + n);
    lemma_listed(items, rank, here, before);
    if !hid::declared(items, slot) {
        lemma_undeclared_is_empty(items, slot);
    }
    assert forall|b: nat| #[trigger] lists(old_reports, kind, here, b) implies b == before
        && hid::declared(items, slot) by {
        lemma_listed(items, rank, here, b);
    }
    assert forall|k: Seq<char>, i: nat, b: nat| k != kind || i != here implies (
    #[trigger] lists(reports, k, i, b) <==> lists(old_reports, k, i, b)) by {
        if lists(reports, k, i, b) {
            lemma_not_listed(all, k, i, b);
        }
        if lists(old_reports, k, i, b) {
            lemma_not_listed(items, k, i, b);
        }
        if i < 256 && (k == "Feature"@ || k == "Input"@ || k == "Output"@) {
            let r: nat = if k == "Feature"@ {
                0
            } else if k == "Input"@ {
                1
            } else {
                2
            };
            lemma_listed(all, r, i, b);
            lemma_listed(items, r, i, b);
            assert(r * 256 + i != slot);
        }
    }
    if hid::declared(items, slot) {
        assert(lists(old_reports, kind, here, before));
    }
}

/// What is not declared has no bits.
proof fn lemma_undeclared_is_empty(items: Seq<Item>, slot: nat)
    requires
        !hid::declared(items, slot),
    ensures
        hid::total_bits(items, slot) == 0,
    decreases items.len(),
{
    if items.len() > 0 {
        lemma_undeclared_is_empty(items.drop_last(), slot);
    }
}

/// Any other short item, behind whole items, declares nothing: the reports are the same with it
/// and without it, and their lengths fit as they did.
pub proof fn law_other_items_declare_nothing(desc: Seq<u8>, class: nat, tag: nat, data: Seq<u8>)
    requires
        hid::whole_items(desc),
        is_short(class, tag, data),
        class == 0 ==> tag != 8 && tag != 9 && tag != 0xB,
    ensures
        hid::reports_of(desc + short_item(class, tag, data)) == hid::reports_of(desc),
        hid::lengths_fit(hid::items(desc + short_item(class, tag, data))) == hid::lengths_fit(
            hid::items(desc),
        ),
{
    lemma_last_item(desc, class, tag, data);
    let items = hid::items(desc);
    let all = hid::items(desc + short_item(class, tag, data));
    assert(all.drop_last() =~= items);
    assert(hid::last_slot(all) is None);
    lemma_same_below(all, items, 768);
}

proof fn lemma_same_below(all: Seq<Item>, items: Seq<Item>, n: nat)
    requires
        all.len() > 0,
        all.drop_last() == items,
        hid::last_slot(all) is None,
    ensures
        hid::reports_below(all, n) == hid::reports_below(items, n),
    decreases n,
{
    if n > 0 {
        lemma_same_below(all, items, (n - 1) as nat);
        let slot = (n - 1) as nat;
        assert(hid::declared(all, slot) == hid::declared(items, slot));
        assert(hid::total_bits(all, slot) == hid::total_bits(items, slot));
    }
}

/// The place of a kind in the alphabet.
pub open spec fn alphabetical(kind: Seq<char>) -> nat {
    if kind == "Feature"@ {
        0
    } else if kind == "Input"@ {
        1
    } else {
        2
    }
}

/// The reports are of the three kinds and have ids of one byte; they come by kind in
/// alphabetical order and within a kind by rising id, so that none comes twice; and the bytes of
/// each hold its bits with none to spare.
pub proof fn law_reports_are_in_order(desc: Seq<u8>, i: int, j: int)
    requires
        0 <= i < j < hid::reports_of(desc).len(),
    ensures
        ({
            let a = hid::reports_of(desc)[i];
            let b = hid::reports_of(desc)[j];
            &&& a.kind == "Feature"@ || a.kind == "Input"@ || a.kind == "Output"@
            &&& b.kind == "Feature"@ || b.kind == "Input"@ || b.kind == "Output"@
            &&& a.id < 256
            &&& b.id < 256
            &&& a.total_bytes == (a.total_bits + 7) / 8
            &&& b.total_bytes == (b.total_bits + 7) / 8
            &&& alphabetical(a.kind) < alphabetical(b.kind) || a.kind == b.kind && a.id < b.id
        }),
{
    lemma_kind_names();
    let items = hid::items(desc);
    hid::lemma_reports_follow_slots(items, 768);
    let s = hid::declared_slots(items, 768)[i];
    let t = hid::declared_slots(items, 768)[j];
    assert(s < t && t < 768);
    assert(s / 256 < t / 256 || s / 256 == t / 256 && s % 256 < t % 256);
}

} // verus!
