//! Which devices are meant, what is read out of arguments, and what is said of a painting.

use crate::backend::{self, ColorParseError, Device, DeviceView};
use crate::cli::{self, RequestError};
use crate::commands::payload::{self, HexError, ProbeError};
use crate::commands::results::{self, SetResultView};
use crate::commands::select::{self, ResolveError};
use crate::commands::set_session::{self, Listing, Painting, TargetView};
use crate::text::{self, DigitsError};
use vstd::prelude::*;

verus! {

// ---------------------------------------------------------------------------
// Devices
// ---------------------------------------------------------------------------

/// A device id as it is written.
pub open spec fn written(d: DeviceView) -> Seq<char> {
    d.id.backend + ":"@ + d.id.key
}

/// One more device is picked by a part of an id exactly if its own written id contains the part;
/// the devices before it are picked as without it.
pub proof fn law_one_more_device(devices: Seq<DeviceView>, d: DeviceView, part: Seq<char>)
    ensures
        select::containing(Seq::empty(), part) == Seq::<DeviceView>::empty(),
        select::containing(devices.push(d), part) == if text::has_fragment(written(d), part) {
            select::containing(devices, part).push(d)
        } else {
            select::containing(devices, part)
        },
{
    reveal(Seq::filter);
    assert(devices.push(d).drop_last() =~= devices);
}

/// A filter that is the written id of a device picks the devices with that id; any other picks
/// those whose written ids contain it; no filter picks all. The order is kept.
pub proof fn law_whole_ids_win(devices: Seq<DeviceView>, part: Seq<char>)
    ensures
        select::selected(devices, None) == devices,
        select::selected(devices, Some(part)) == if exists|i: int|
            0 <= i < devices.len() && written(#[trigger] devices[i]) == part {
            devices.filter(|d: DeviceView| written(d) == part)
        } else {
            devices.filter(|d: DeviceView| text::has_fragment(written(d), part))
        },
{
    select::law_no_filter_selects_all(devices);
    let whole = exists|i: int| 0 <= i < devices.len() && written(#[trigger] devices[i]) == part;
    assert(select::names_device(devices, Some(part)) == whole) by {
        if whole {
            let i = choose|i: int|
                0 <= i < devices.len() && written(#[trigger] devices[i]) == part;
            assert(backend::id_text(devices[i].id) == part);
        }
        if select::names_device(devices, Some(part)) {
            let i = choose|i: int|
                0 <= i < devices.len() && backend::id_text((#[trigger] devices[i]).id) == part;
            assert(written(devices[i]) == part);
        }
    }
    if whole {
        lemma_same_filter(
            devices,
            |d: DeviceView| select::picks(Some(part), true, d.id),
            |d: DeviceView| written(d) == part,
        );
    } else {
        lemma_same_filter(
            devices,
            |d: DeviceView| select::picks(Some(part), false, d.id),
            |d: DeviceView| text::has_fragment(written(d), part),
        );
    }
}

proof fn lemma_same_filter(
    devices: Seq<DeviceView>,
    a: spec_fn(DeviceView) -> bool,
    b: spec_fn(DeviceView) -> bool,
)
    requires
        forall|d: DeviceView| #[trigger] a(d) == b(d),
    ensures
        devices.filter(a) == devices.filter(b),
    decreases devices.len(),
{
    reveal(Seq::filter);
    if devices.len() > 0 {
        lemma_same_filter(devices.drop_last(), a, b);
        assert(a(devices.last()) == b(devices.last()));
    }
}

/// What is said of a filter that picks no device, or several: then with their number and all
/// their ids, one on each line.
pub proof fn law_wrong_filters_are_described(part: Seq<char>, picked: Seq<DeviceView>)
    ensures
        select::no_match_text(part) == "no device matched `"@ + part + "`"@,
        select::ambiguous_text(part, picked) == "filter `"@ + part + "` matched "@
            + text::decimal_text(picked.len()) + " devices:\n  "@ + text::joined(
            Seq::new(picked.len(), |i: int| written(picked[i])),
            "\n  "@,
        ),
{
    assert(select::id_texts(picked) =~= Seq::new(picked.len(), |i: int| written(picked[i])));
}

/// A device is meant only where it is the only one that was picked. Else the answer says that
/// there is none, or names all that there are.
pub proof fn law_only_a_single_device_is_meant(
    picked: Seq<DeviceView>,
    part: Seq<char>,
    r: Result<Device, ResolveError>,
)
    requires
        select::means_one(picked, part, r),
    ensures
        match r {
            Ok(device) => picked == seq![device@],
            Err(ResolveError::NoMatch(message)) => {
                &&& picked.len() == 0
                &&& message@ == "no device matched `"@ + part + "`"@
            },
            Err(ResolveError::Ambiguous(message)) => {
                &&& picked.len() > 1
                &&& message@ == select::ambiguous_text(part, picked)
            },
        },
{
    if let Ok(device) = r {
        assert(picked =~= seq![device@]);
    }
}

/// The devices of all backends are gathered in order; a backend that cannot list its devices adds
/// none and keeps no other from being gathered.
pub proof fn law_devices_are_gathered(
    found: Seq<Option<Seq<DeviceView>>>,
    more: Option<Seq<DeviceView>>,
)
    ensures
        select::gathered(Seq::empty()) == Seq::<DeviceView>::empty(),
        select::gathered(found.push(more)) == match more {
            Some(devices) => select::gathered(found) + devices,
            None => select::gathered(found),
        },
{
    assert(found.push(more).drop_last() =~= found);
    if more is None {
        assert(select::gathered(found) + Seq::<DeviceView>::empty() =~= select::gathered(found));
    }
}

/// What is listed, or nothing where it cannot be.
pub open spec fn or_none(found: Option<Seq<DeviceView>>) -> Seq<DeviceView> {
    match found {
        Some(devices) => devices,
        None => Seq::empty(),
    }
}

/// A painting has all devices of all three backends to choose from, in the order of the backends,
/// and knows of each which backend listed it.
pub proof fn law_every_listed_device_can_be_chosen(listing: Listing, b: nat, i: int)
    requires
        b < 3,
    ensures
        set_session::devices_of(set_session::all_targets(listing, 0)) == or_none(listing(0))
            + or_none(listing(1)) + or_none(listing(2)),
        set_session::devices_of(set_session::listed_by(b, listing(b))) == or_none(listing(b)),
        0 <= i < or_none(listing(b)).len() ==> set_session::listed_by(b, listing(b))[i].backend
            == b,
{
    reveal_with_fuel(set_session::all_targets, 4);
    lemma_listed(0, listing(0));
    lemma_listed(1, listing(1));
    lemma_listed(2, listing(2));
    lemma_listed(b, listing(b));
    let l0 = set_session::listed_by(0, listing(0));
    let l1 = set_session::listed_by(1, listing(1));
    let l2 = set_session::listed_by(2, listing(2));
    let all = set_session::all_targets(listing, 0);
    assert(all =~= l0 + l1 + l2);
    assert(set_session::devices_of(all) =~= set_session::devices_of(l0) + set_session::devices_of(
        l1,
    ) + set_session::devices_of(l2));
}

proof fn lemma_listed(b: nat, found: Option<Seq<DeviceView>>)
    ensures
        set_session::devices_of(set_session::listed_by(b, found)) == or_none(found),
{
    assert(set_session::devices_of(set_session::listed_by(b, found)) =~= or_none(found));
}

/// A chosen target is one that its backend listed.
proof fn lemma_chosen_was_listed(
    list: Seq<TargetView>,
    pred: spec_fn(TargetView) -> bool,
    i: int,
)
    requires
        0 <= i < list.filter(pred).len(),
    ensures
        list.contains(list.filter(pred)[i]),
    decreases list.len(),
{
    reveal(Seq::filter);
    let less = list.drop_last();
    if list.len() > 0 {
        if i < less.filter(pred).len() {
            lemma_chosen_was_listed(less, pred, i);
            let t = less.filter(pred)[i];
            let j = choose|j: int| 0 <= j < less.len() && less[j] == t;
            assert(list[j] == t);
        } else {
            assert(list[list.len() - 1] == list.last());
        }
    }
}

/// A painting ends, and has a result for each device that the filter selects from the devices of
/// all backends, in order: the written id of the device, and what came of painting it by a
/// backend that listed it.
pub proof fn law_painting_reports_every_selected_device(
    filter: Option<Seq<char>>,
    listing: Listing,
    painting: Painting,
    i: int,
)
    requires
        set_session::under_own_names(listing),
    ensures
        ({
            let devices = or_none(listing(0)) + or_none(listing(1)) + or_none(listing(2));
            let chosen = select::selected(devices, filter);
            let end = set_session::session_run(
                set_session::first_state(filter),
                listing,
                painting,
                chosen.len() + 3,
            );
            &&& end.due() is Finish
            &&& end.results.len() == chosen.len()
            &&& 0 <= i < chosen.len() ==> {
                &&& end.results[i].id == written(chosen[i])
                &&& exists|b: nat|
                    {
                        &&& b < 3
                        &&& #[trigger] or_none(listing(b)).contains(chosen[i])
                        &&& end.results[i].error == painting(i as nat, b)
                    }
            }
        }),
{
    let devices = or_none(listing(0)) + or_none(listing(1)) + or_none(listing(2));
    let chosen = select::selected(devices, filter);
    let all = set_session::all_targets(listing, 0);
    let list = set_session::targets(listing, filter);
    law_every_listed_device_can_be_chosen(listing, 0, 0);
    set_session::law_targets_are_the_selected_devices(listing, filter);
    set_session::law_every_selected_device_is_painted_once(filter, listing, painting);
    assert(set_session::devices_of(list) == chosen);
    if 0 <= i < chosen.len() {
        assert(chosen[i] == list[i].device);
        let whole = select::names_device(set_session::devices_of(all), filter);
        lemma_chosen_was_listed(
            all,
            |t: TargetView| select::picks(filter, whole, t.device.id),
            i,
        );
        let j = choose|j: int| 0 <= j < all.len() && all[j] == list[i];
        lemma_backend_listed(listing, j);
        let b = list[i].backend;
        assert(or_none(listing(b)).contains(chosen[i]));
    }
}

/// Every target stands among what its backend listed.
proof fn lemma_backend_listed(listing: Listing, j: int)
    requires
        0 <= j < set_session::all_targets(listing, 0).len(),
    ensures
        ({
            let t = set_session::all_targets(listing, 0)[j];
            t.backend < 3 && or_none(listing(t.backend)).contains(t.device)
        }),
{
    reveal_with_fuel(set_session::all_targets, 4);
    let l0 = set_session::listed_by(0, listing(0));
    let l1 = set_session::listed_by(1, listing(1));
    let l2 = set_session::listed_by(2, listing(2));
    let all = set_session::all_targets(listing, 0);
    assert(all =~= l0 + l1 + l2);
    if j < l0.len() {
        assert(all[j] == l0[j]);
        assert(or_none(listing(0))[j] == all[j].device);
    } else if j < l0.len() + l1.len() {
        let k = j - l0.len();
        assert(all[j] == l1[k]);
        assert(or_none(listing(1))[k] == all[j].device);
    } else {
        let k = j - l0.len() - l1.len();
        assert(all[j] == l2[k]);
        assert(or_none(listing(2))[k] == all[j].device);
    }
}

/// A painting waits only for a filter that begins with the name of a backend that is still to be
/// asked, and a colon.
pub proof fn law_waiting_is_for_backend_names(part: Seq<char>, from: nat)
    ensures
        !set_session::may_name(None, from),
        set_session::may_name(Some(part), from) <==> {
            ||| from <= 0 && text::begins_with(part, "gigabyte-mobo"@ + ":"@)
            ||| from <= 1 && text::begins_with(part, "gigabyte-gpu"@ + ":"@)
            ||| from <= 2 && text::begins_with(part, "gskill-ddr5"@ + ":"@)
        },
{
    let names = crate::backends::catalog::labels();
    assert(names[0] == "gigabyte-mobo"@);
    assert(names[1] == "gigabyte-gpu"@);
    assert(names[2] == "gskill-ddr5"@);
    if from <= 0 && text::begins_with(part, "gigabyte-mobo"@ + ":"@) {
        assert(text::begins_with(part, names[0] + ":"@));
    }
    if from <= 1 && text::begins_with(part, "gigabyte-gpu"@ + ":"@) {
        assert(text::begins_with(part, names[1] + ":"@));
    }
    if from <= 2 && text::begins_with(part, "gskill-ddr5"@ + ":"@) {
        assert(text::begins_with(part, names[2] + ":"@));
    }
}

// ---------------------------------------------------------------------------
// Results
// ---------------------------------------------------------------------------

/// Every result has a line that says whether the device was painted, its id, and, where it was
/// not, why. As JSON it is a row of id, success and reason. Without a result there is no line,
/// and the reason is the filter, or that there are no devices.
pub proof fn law_results_say_what_came_of_each(
    list: Seq<SetResultView>,
    filter: Option<Seq<char>>,
    as_json: bool,
    json: Seq<char>,
    i: int,
)
    requires
        0 <= i < list.len(),
    ensures
        ({
            let report = results::report_of(list, filter, as_json, json);
            let line = results::report_of(list, filter, false, json).lines[i];
            let row = results::rows_of(list)[i];
            &&& list[i].error is None ==> line == "ok    "@ + list[i].id
            &&& list[i].error matches Some(error) ==> line == "error "@ + list[i].id + "  "@
                + error
            &&& results::rows_of(list).len() == list.len()
            &&& row.0 == list[i].id
            &&& row.1 == list[i].error is None
            &&& row.2 == list[i].error
            &&& as_json ==> report.lines == seq![json]
            &&& report.failure is Some <==> exists|k: int|
                0 <= k < list.len() && (#[trigger] list[k]).error is Some
            &&& report.failure matches Some(failure) ==> failure is SomeFailed
                && results::failure_text(failure) == "one or more devices failed to update"@
        }),
        ({
            let none = results::report_of(Seq::empty(), filter, as_json, json);
            &&& none.lines.len() == 0
            &&& none.failure is Some
            &&& results::failure_text(none.failure.unwrap()) == match filter {
                Some(part) => "no device matched `"@ + part + "`"@,
                None => "no devices detected"@,
            }
        }),
{
}

// ---------------------------------------------------------------------------
// Arguments
// ---------------------------------------------------------------------------

/// A character that stands between bytes: white space or a comma.
pub open spec fn separates(c: char) -> bool {
    let u = c as nat;
    ||| c == ','
    ||| 0x9 <= u <= 0xd
    ||| u == 0x20
    ||| u == 0x85
    ||| u == 0xa0
    ||| u == 0x1680
    ||| 0x2000 <= u <= 0x200a
    ||| u == 0x2028
    ||| u == 0x2029
    ||| u == 0x202f
    ||| u == 0x205f
    ||| u == 0x3000
}

/// Of a payload, white space and commas are left out wherever they stand, and nothing else is.
pub proof fn law_only_separators_are_left_out(s: Seq<char>, c: char)
    ensures
        payload::cleaned(Seq::empty()) == Seq::<char>::empty(),
        payload::cleaned(s.push(c)) == if separates(c) {
            payload::cleaned(s)
        } else {
            payload::cleaned(s).push(c)
        },
{
    reveal(Seq::filter);
    assert(s.push(c).drop_last() =~= s);
}

/// Two bytes are a pair exactly if both are hexadecimal digits; then it is worth sixteen times
/// the first and the second.
pub proof fn law_pair_is_two_digits(bytes: Seq<u8>, at: int)
    requires
        0 <= at,
        at + 2 <= bytes.len(),
    ensures
        ({
            let high = text::digit_value(bytes[at] as char);
            let low = text::digit_value(bytes[at + 1] as char);
            text::hex_pair(bytes, at) == if high < 16 && low < 16 {
                Some(16 * high + low)
            } else {
                None
            }
        }),
{
    let pair = seq![bytes[at] as char, bytes[at + 1] as char];
    reveal_with_fuel(text::number_value, 3);
    assert(pair.drop_last() =~= seq![pair[0]]);
    assert(seq![pair[0]].drop_last() =~= Seq::empty());
    if text::all_digits(pair, 16) {
        assert(text::digit_value(pair[0]) < 16 && text::digit_value(pair[1]) < 16);
    }
}

/// What is said of a wrong payload names the byte, counted from zero.
pub proof fn law_wrong_payloads_are_described(byte: usize)
    ensures
        payload::hex_error_text(HexError::BadHex { byte }) == "invalid hex at byte "@
            + text::decimal_text(byte as nat),
        payload::hex_error_text(HexError::OddDigits)
            == "hex payload must have an even number of digits"@,
{
}

/// A report is asked for exactly if its id is a number of one byte in hexadecimal digits, with
/// `0x` in front or not, and between 1 and 4096 bytes are wanted. A wrong id is refused as such
/// whatever the length.
pub proof fn law_report_requests(id: Seq<char>, len: nat)
    ensures
        ({
            let digits = if id.len() >= 2 && id[0] == '0' && id[1] == 'x' {
                id.skip(2)
            } else {
                id
            };
            match payload::requested(id, len) {
                Ok(r) => {
                    &&& 1 <= len <= 4096
                    &&& r.len == len
                    &&& text::digits_number(digits, 16, 255) == Ok::<nat, text::DigitsError>(
                        r.id as nat,
                    )
                },
                Err(ProbeError::BadLength) => {
                    &&& len == 0 || len > 4096
                    &&& text::digits_number(digits, 16, 255) is Ok
                },
                Err(ProbeError::BadReportId(e)) => text::digits_number(digits, 16, 255) == Err::<
                    nat,
                    text::DigitsError,
                >(e),
            }
        }),
{
    let digits = payload::without_hex_mark(id);
    if digits.len() > 0 {
        text::lemma_no_fault(digits, 16, 255);
    }
}

/// The bytes of a text without one leading `#`.
pub open spec fn bytes_behind_hash(s: Seq<char>) -> Seq<u8> {
    text::utf8(
        if s.len() > 0 && s[0] == '#' {
            s.skip(1)
        } else {
            s
        },
    )
}

/// The worth of a byte as a digit.
pub open spec fn worth(b: u8) -> nat {
    text::digit_value(b as char)
}

/// A text is a color exactly if six bytes, all of them hexadecimal digits, are left without one
/// leading `#`: two for red, two for green, two for blue. It is refused for its length where
/// there are not six bytes, and else for its digits.
pub proof fn law_color_is_six_digits(s: Seq<char>)
    ensures
        ({
            let b = bytes_behind_hash(s);
            let right = worth(b[0]) < 16 && worth(b[1]) < 16 && worth(b[2]) < 16 && worth(b[3]) < 16
                && worth(b[4]) < 16 && worth(b[5]) < 16;
            match backend::parsed_color(s) {
                Ok(c) => {
                    &&& b.len() == 6
                    &&& right
                    &&& c.r == 16 * worth(b[0]) + worth(b[1])
                    &&& c.g == 16 * worth(b[2]) + worth(b[3])
                    &&& c.b == 16 * worth(b[4]) + worth(b[5])
                },
                Err(ColorParseError::BadLength) => b.len() != 6,
                Err(ColorParseError::BadHex) => b.len() == 6 && !right,
            }
        }),
{
    let b = bytes_behind_hash(s);
    assert(b == text::utf8(backend::color_digits(s)));
    if b.len() == 6 {
        law_pair_is_two_digits(b, 0);
        law_pair_is_two_digits(b, 2);
        law_pair_is_two_digits(b, 4);
    }
}

/// What is said of a row of characters that is no number.
pub open spec fn no_number(e: DigitsError) -> Seq<char> {
    match e {
        DigitsError::Empty => "cannot parse integer from empty string"@,
        DigitsError::InvalidDigit => "invalid digit found in string"@,
        DigitsError::TooLarge => "number too large to fit in target type"@,
    }
}

/// A wrong argument is described by the argument, and behind a colon by what is wrong with it
/// where that is not the same.
pub proof fn law_wrong_arguments_are_described(e: RequestError)
    ensures
        cli::request_error_text(e) == match e {
            RequestError::BadColor(ColorParseError::BadLength) => "parsing --color"@ + ": "@
                + "hex color must be 6 digits (e.g. ff8800)"@,
            RequestError::BadColor(ColorParseError::BadHex) => "parsing --color"@ + ": "@
                + "invalid hex digit"@,
            RequestError::BadPayload(HexError::OddDigits) =>
                "hex payload must have an even number of digits"@,
            RequestError::BadPayload(HexError::BadHex { byte }) => "invalid hex at byte "@
                + text::decimal_text(byte as nat) + ": "@ + no_number(DigitsError::InvalidDigit),
            RequestError::BadProbe(ProbeError::BadReportId(why)) =>
                "--report-id must be hex like `cc` or `0xcc`"@ + ": "@ + no_number(why),
            RequestError::BadProbe(ProbeError::BadLength) => "--len must be 1..=4096"@,
        },
{
}

} // verus!
