//! Which HID collections are motherboards, which product a path names, and what the plan for a
//! listed board does.

use crate::backend::{Backend, Color, DeviceIdView, DeviceView, ZoneView};
use crate::backends::gigabyte_mobo::{self, GigabyteMobo};
use crate::backends::mobo_board::{self, Board};
use crate::backends::mobo_laws;
use crate::hid::HidInfo;
use crate::text;
use vstd::prelude::*;

verus! {

// ---------------------------------------------------------------------------
// Discovery
// ---------------------------------------------------------------------------

/// The collection is the LED control of one of the four products.
pub open spec fn is_led_control(info: HidInfo) -> bool {
    &&& info.vendor_id == 0x048D
    &&& info.product_id == 0x8297 || info.product_id == 0x8950 || info.product_id == 0x5702
        || info.product_id == 0x5711
    &&& info.usage_page == 0xFF89
    &&& info.usage == 0x00CC
}

/// A collection alone is a device exactly if vendor, product, usage page and usage are those of
/// an LED control, whatever its other fields say. The path is the device's key.
pub proof fn law_one_collection(info: HidInfo)
    ensures
        gigabyte_mobo::mobo_devices(seq![info]) == if is_led_control(info) {
            seq![
                DeviceView {
                    id: DeviceIdView { backend: "gigabyte-mobo"@, key: info.path@ },
                    vendor: "Gigabyte"@,
                    name: "Gigabyte RGB Fusion 2.0 (ITE "@ + text::hex_text(0x048D, 4, false)
                        + ":"@ + text::hex_text(info.product_id as nat, 4, false) + ")"@,
                    zones: seq![ZoneView { name: "all"@, led_count: 0 }],
                },
            ]
        } else {
            Seq::empty()
        },
{
    reveal_with_fuel(gigabyte_mobo::mobo_devices, 2);
    assert(seq![info].drop_last() =~= Seq::empty());
    if is_led_control(info) {
        let zones = seq![ZoneView { name: "all"@, led_count: 0 }];
        assert(gigabyte_mobo::mobo_device(info).zones =~= zones);
        assert(gigabyte_mobo::mobo_devices(seq![info]) =~= seq![gigabyte_mobo::mobo_device(info)]);
    }
}

/// The devices of two lists of collections one after the other are those of the first, then
/// those of the second: every collection counts for itself, in order.
pub proof fn law_listing_joins(a: Seq<HidInfo>, b: Seq<HidInfo>)
    ensures
        gigabyte_mobo::mobo_devices(a + b) == gigabyte_mobo::mobo_devices(a)
            + gigabyte_mobo::mobo_devices(b),
    decreases b.len(),
{
    if b.len() == 0 {
        assert(a + b =~= a);
        assert(gigabyte_mobo::mobo_devices(a) + gigabyte_mobo::mobo_devices(b)
            =~= gigabyte_mobo::mobo_devices(a));
    } else {
        law_listing_joins(a, b.drop_last());
        assert((a + b).drop_last() =~= a + b.drop_last());
        assert(gigabyte_mobo::mobo_devices(a + b) =~= gigabyte_mobo::mobo_devices(a)
            + gigabyte_mobo::mobo_devices(b));
    }
}

/// Two lists whose collections agree in vendor, product, usage page, usage and path give the
/// same devices.
pub proof fn law_other_fields_make_no_difference(a: Seq<HidInfo>, b: Seq<HidInfo>)
    requires
        a.len() == b.len(),
        forall|i: int|
            0 <= i < a.len() ==> {
                &&& (#[trigger] a[i]).vendor_id == b[i].vendor_id
                &&& a[i].product_id == b[i].product_id
                &&& a[i].usage_page == b[i].usage_page
                &&& a[i].usage == b[i].usage
                &&& a[i].path@ == b[i].path@
            },
    ensures
        gigabyte_mobo::mobo_devices(a) == gigabyte_mobo::mobo_devices(b),
    decreases a.len(),
{
    if a.len() > 0 {
        let n = a.len() - 1;
        assert(a[n] == a.last() && b[n] == b.last());
        assert forall|i: int| 0 <= i < a.drop_last().len() implies {
            &&& (#[trigger] a.drop_last()[i]).vendor_id == b.drop_last()[i].vendor_id
            &&& a.drop_last()[i].product_id == b.drop_last()[i].product_id
            &&& a.drop_last()[i].usage_page == b.drop_last()[i].usage_page
            &&& a.drop_last()[i].usage == b.drop_last()[i].usage
            &&& a.drop_last()[i].path@ == b.drop_last()[i].path@
        } by {
            assert(a.drop_last()[i] == a[i] && b.drop_last()[i] == b[i]);
        }
        law_other_fields_make_no_difference(a.drop_last(), b.drop_last());
    }
}

/// Every LED control is listed, and nothing else is: the devices are as many as the LED
/// controls, and each has the path of the one it stands for as its key, in order.
pub proof fn law_every_led_control_is_listed(found: Seq<HidInfo>)
    ensures
        ({
            let controls = found.filter(|info: HidInfo| is_led_control(info));
            let devices = gigabyte_mobo::mobo_devices(found);
            &&& devices.len() == controls.len()
            &&& forall|i: int|
                0 <= i < devices.len() ==> (#[trigger] devices[i]).id == (DeviceIdView {
                    backend: "gigabyte-mobo"@,
                    key: controls[i].path@,
                })
        }),
    decreases found.len(),
{
    reveal(Seq::filter);
    if found.len() > 0 {
        law_every_led_control_is_listed(found.drop_last());
    }
}

// ---------------------------------------------------------------------------
// Paths
// ---------------------------------------------------------------------------

/// Capitals and small letters in a path make no difference.
pub proof fn law_paths_are_case_blind(a: Seq<char>, b: Seq<char>)
    requires
        mobo_laws::capitals(a) == mobo_laws::capitals(b),
    ensures
        gigabyte_mobo::path_pid(a) == gigabyte_mobo::path_pid(b),
{
}

proof fn lemma_first_is_there(s: Seq<char>, part: Seq<char>, from: int)
    requires
        0 <= from,
        text::first_fragment(s, part, from) is Some,
    ensures
        text::has_fragment(s, part),
    decreases s.len() + 1 - from,
{
    if s.subrange(from, from + part.len()) != part {
        lemma_first_is_there(s, part, from + 1);
    }
}

/// A path without `PID_` names no product.
pub proof fn law_path_without_token(path: Seq<char>)
    requires
        !text::has_fragment(mobo_laws::capitals(path), "PID_"@),
    ensures
        gigabyte_mobo::path_pid(path) == 0,
{
    let upper = path.map_values(|c: char| text::ascii_upper(c));
    assert(upper == mobo_laws::capitals(path));
    if text::first_fragment(upper, "PID_"@, 0) is Some {
        lemma_first_is_there(upper, "PID_"@, 0);
    }
}

proof fn lemma_capitals_keep_value(s: Seq<char>)
    ensures
        text::number_value(mobo_laws::capitals(s), 16) == text::number_value(s, 16),
        text::all_digits(s, 16) ==> text::all_digits(mobo_laws::capitals(s), 16),
    decreases s.len(),
{
    let up = mobo_laws::capitals(s);
    if s.len() > 0 {
        lemma_capitals_keep_value(s.drop_last());
        assert(up.drop_last() =~= mobo_laws::capitals(s.drop_last()));
        assert(up.last() == text::ascii_upper(s.last()));
    }
    if text::all_digits(s, 16) {
        assert forall|i: int| 0 <= i < up.len() implies text::digit_value(#[trigger] up[i]) < 16 by {
            assert(text::digit_value(s[i]) < 16);
            assert(up[i] == text::ascii_upper(s[i]));
        }
    }
}

/// The product is the number in all the hexadecimal digits right behind the first `PID_`; where
/// there are none, or the number does not fit in 16 bits, it is zero. What stands before and
/// behind makes no difference.
pub proof fn law_pid_is_the_digits_behind_the_token(
    before: Seq<char>,
    digits: Seq<char>,
    after: Seq<char>,
)
    requires
        !text::has_fragment(mobo_laws::capitals(before), "PID_"@),
        text::all_digits(digits, 16),
        after.len() > 0 ==> text::digit_value(after[0]) >= 16,
    ensures
        gigabyte_mobo::path_pid(before + "PID_"@ + digits + after) == if digits.len() > 0
            && text::number_value(digits, 16) <= 0xFFFF {
            text::number_value(digits, 16)
        } else {
            0
        },
{
    reveal_strlit("PID_");
    let token = "PID_"@;
    let path = before + token + digits + after;
    let up = path.map_values(|c: char| text::ascii_upper(c));
    let ups = mobo_laws::capitals(digits);
    let n = before.len() as int;
    let m = digits.len() as int;
    lemma_capitals_keep_value(digits);
    assert(up =~= mobo_laws::capitals(before) + token + (ups + mobo_laws::capitals(after)));
    mobo_laws::lemma_token_place(
        mobo_laws::capitals(before),
        ups + mobo_laws::capitals(after),
    );
    assert(up.subrange(n + 4, n + 4 + m) =~= ups);
    assert forall|k: int| n + 4 <= k < n + 4 + m implies text::digit_value(#[trigger] up[k])
        < 16 by {
        assert(up[k] == ups[k - n - 4]);
    }
    if after.len() > 0 {
        assert(up[n + 4 + m] == text::ascii_upper(after[0]));
    }
    mobo_laws::lemma_run_end(up, n + 4, n + 4 + m);
    if m > 0 {
        assert(text::digit_value(ups[0]) < 16);
    }
    assert(text::without_plus(ups) == ups);
}

// ---------------------------------------------------------------------------
// Plans and payloads
// ---------------------------------------------------------------------------

/// The plan for a board opens the path that is its key, and leaves the board showing the color
/// on all zones of the product that the path names and on all strips.
pub proof fn law_plan_paints_the_board(m: &GigabyteMobo, key: Seq<char>, color: Color, b: Board)
    ensures
        m.plan_for(key, color) is Some,
        m.plan_for(key, color).unwrap().path == key,
        ({
            let end = mobo_board::board_after_all(b, m.plan_for(key, color).unwrap().steps);
            &&& forall|z: nat|
                z < mobo_board::zone_count(gigabyte_mobo::path_pid(key) as u16)
                    ==> #[trigger] end.zones.dom().contains(z) && end.zones[z] == (
                mobo_board::Effect { kind: 0x01, brightness: 0xFF, dimmed: 0x00, color })
            &&& forall|h: u8|
                h == 0x58 || h == 0x59 || h == 0x62 || h == 0x63 ==> mobo_board::leds_show(
                    #[trigger] end.strips[h],
                    color,
                    0,
                    32,
                )
        }),
{
    let pid = gigabyte_mobo::path_pid(key) as u16;
    mobo_board::law_painting_shows_the_color(b, pid, color);
    let steps = m.plan_for(key, color).unwrap().steps;
    assert(steps == gigabyte_mobo::paint_steps(pid, color));
    let end = mobo_board::board_after_all(b, steps);
    assert forall|z: nat| z < mobo_board::zone_count(pid) implies #[trigger] end.zones.dom().contains(z)
        && end.zones[z] == (mobo_board::Effect {
        kind: 0x01,
        brightness: 0xFF,
        dimmed: 0x00,
        color,
    }) by {}
    assert forall|h: u8| h == 0x58 || h == 0x59 || h == 0x62 || h == 0x63 implies mobo_board::leds_show(
        #[trigger] end.strips[h],
        color,
        0,
        32,
    ) by {}
}

/// A payload is sent behind the report id, whole and in order, with nothing but zeros after it.
pub proof fn law_payload_is_framed(payload: Seq<u8>)
    requires
        payload.len() <= 63,
    ensures
        gigabyte_mobo::raw_packet(payload).len() == 64,
        gigabyte_mobo::raw_packet(payload)[0] == 0xCC,
        gigabyte_mobo::raw_packet(payload).subrange(1, 1int + payload.len()) == payload,
        forall|i: int|
            payload.len() < i < 64 ==> #[trigger] gigabyte_mobo::raw_packet(payload)[i] == 0,
{
    assert(gigabyte_mobo::raw_packet(payload).subrange(1, 1int + payload.len()) =~= payload);
}

} // verus!
