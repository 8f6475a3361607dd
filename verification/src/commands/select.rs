//! Which of the devices a filter means.

use crate::backend::{self, Device, DeviceId, DeviceIdView, DeviceView, Zone};
use crate::text;
use vstd::prelude::*;

verus! {

/// The filter is the whole written id of one of the devices.
pub open spec fn names_device(devices: Seq<DeviceView>, filter: Option<Seq<char>>) -> bool {
    filter matches Some(part) && exists|i: int|
        0 <= i < devices.len() && backend::id_text((#[trigger] devices[i]).id) == part
}

/// Whether a filter picks a device. One that is a whole id picks the device with that id; any
/// other picks a device when it is part of the device's written id. No filter picks every
/// device.
pub open spec fn picks(filter: Option<Seq<char>>, whole: bool, id: DeviceIdView) -> bool {
    match filter {
        Some(part) => if whole {
            backend::id_text(id) == part
        } else {
            text::has_fragment(backend::id_text(id), part)
        },
        None => true,
    }
}

/// The devices that a filter picks, in their order. A written id that equals the filter wins
/// over ids that contain it.
pub open spec fn selected(devices: Seq<DeviceView>, filter: Option<Seq<char>>) -> Seq<DeviceView> {
    let whole = names_device(devices, filter);
    devices.filter(|d: DeviceView| picks(filter, whole, d.id))
}

/// The devices whose written ids contain the filter, in their order.
pub open spec fn containing(devices: Seq<DeviceView>, filter: Seq<char>) -> Seq<DeviceView> {
    devices.filter(|d: DeviceView| picks(Some(filter), false, d.id))
}

/// A filter given as an optional text, as mathematical values.
pub open spec fn filter_view(filter: Option<&str>) -> Option<Seq<char>> {
    match filter {
        Some(part) => Some(part@),
        None => None,
    }
}

/// The written ids of devices.
pub open spec fn id_texts(devices: Seq<DeviceView>) -> Seq<Seq<char>> {
    devices.map_values(|d: DeviceView| backend::id_text(d.id))
}

/// Whether a filter is the written id of a device.
pub fn is_whole_id(filter: Option<&str>, id: &DeviceId) -> (yes: bool)
    ensures
        yes == (filter_view(filter) == Some(backend::id_text(id@))),
{
    match filter {
        Some(part) => text::same_text(id.to_string().as_str(), part),
        None => false,
    }
}

/// Whether a filter picks a device, given whether it is the whole id of one of the devices.
pub fn is_picked(filter: Option<&str>, whole: bool, id: &DeviceId) -> (yes: bool)
    ensures
        yes == picks(filter_view(filter), whole, id@),
{
    match filter {
        Some(part) => if whole {
            text::same_text(id.to_string().as_str(), part)
        } else {
            text::contains_text(id.to_string().as_str(), part)
        },
        None => true,
    }
}

/// Whether a filter is the whole written id of one of the devices.
fn is_named(devices: &Vec<Device>, filter: Option<&str>) -> (yes: bool)
    ensures
        yes == names_device(backend::device_views(devices@), filter_view(filter)),
{
    let ghost all = backend::device_views(devices@);
    let mut i: usize = 0;
    while i < devices.len()
        invariant
            i <= devices@.len(),
            all == backend::device_views(devices@),
            forall|k: int|
                0 <= k < i ==> filter_view(filter) != Some(
                    backend::id_text((#[trigger] all[k]).id),
                ),
        decreases devices@.len() - i,
    {
        if is_whole_id(filter, &devices[i].id) {
            assert(backend::id_text(all[i as int].id) == filter_view(filter).unwrap());
            return true;
        }
        i += 1;
    }
    false
}

/// Another device with the same contents.
pub(crate) fn same_device(d: &Device) -> (other: Device)
    ensures
        other@ == d@,
{
    let mut zones: Vec<Zone> = Vec::new();
    let ghost all = d.zones@.map_values(|z: Zone| z@);
    let mut i: usize = 0;
    assert(zones@.map_values(|z: Zone| z@) =~= all.take(0));
    while i < d.zones.len()
        invariant
            i <= d.zones@.len(),
            all == d.zones@.map_values(|z: Zone| z@),
            zones@.map_values(|z: Zone| z@) == all.take(i as int),
        decreases d.zones@.len() - i,
    {
        let ghost before = zones@.map_values(|z: Zone| z@);
        zones.push(Zone { name: d.zones[i].name.clone(), led_count: d.zones[i].led_count });
        assert(zones@.map_values(|z: Zone| z@) =~= before.push(zones@.last()@));
        i += 1;
        assert(zones@.map_values(|z: Zone| z@) =~= all.take(i as int));
    }
    assert(zones@.map_values(|z: Zone| z@) =~= all);
    Device {
        id: DeviceId { backend: d.id.backend, key: d.id.key.clone() },
        vendor: d.vendor,
        name: d.name.clone(),
        zones,
    }
}

/// The devices that a filter picks, in their order, given whether it is a whole id.
fn picked_devices(devices: &Vec<Device>, filter: Option<&str>, whole: bool) -> (list: Vec<Device>)
    ensures
        backend::device_views(list@) == backend::device_views(devices@).filter(
            |d: DeviceView| picks(filter_view(filter), whole, d.id),
        ),
{
    let ghost all = backend::device_views(devices@);
    let ghost pred = |d: DeviceView| picks(filter_view(filter), whole, d.id);
    let mut list: Vec<Device> = Vec::new();
    let mut i: usize = 0;
    proof {
        reveal(Seq::filter);
        assert(backend::device_views(list@) =~= all.take(0).filter(pred));
    }
    while i < devices.len()
        invariant
            i <= devices@.len(),
            all == backend::device_views(devices@),
            pred == (|d: DeviceView| picks(filter_view(filter), whole, d.id)),
            backend::device_views(list@) == all.take(i as int).filter(pred),
        decreases devices@.len() - i,
    {
        proof {
            reveal(Seq::filter);
            assert(all.take(i + 1).drop_last() =~= all.take(i as int));
        }
        if is_picked(filter, whole, &devices[i].id) {
            let ghost before = backend::device_views(list@);
            list.push(same_device(&devices[i]));
            assert(backend::device_views(list@) =~= before.push(list@.last()@));
        }
        i += 1;
    }
    assert(all.take(i as int) =~= all);
    list
}

/// The devices that a filter picks, in their order. A written id that equals the filter wins
/// over ids that contain it.
pub fn select_devices(devices: &Vec<Device>, filter: Option<&str>) -> (list: Vec<Device>)
    ensures
        backend::device_views(list@) == selected(
            backend::device_views(devices@),
            filter_view(filter),
        ),
{
    let whole = is_named(devices, filter);
    picked_devices(devices, filter, whole)
}

/// The devices of all backends that could list theirs, backend by backend.
pub open spec fn gathered(found: Seq<Option<Seq<DeviceView>>>) -> Seq<DeviceView>
    decreases found.len(),
{
    if found.len() == 0 {
        Seq::empty()
    } else {
        gathered(found.drop_last()) + match found.last() {
            Some(devices) => devices,
            None => Seq::empty(),
        }
    }
}

/// What the backends listed, as mathematical values.
pub open spec fn found_views(found: Seq<Option<Vec<Device>>>) -> Seq<Option<Seq<DeviceView>>> {
    found.map_values(
        |f: Option<Vec<Device>>|
            match f {
                Some(devices) => Some(backend::device_views(devices@)),
                None => None,
            },
    )
}

/// Appends devices to a list.
fn push_devices(list: &mut Vec<Device>, more: &Vec<Device>)
    ensures
        backend::device_views(final(list)@) == backend::device_views(old(list)@)
            + backend::device_views(more@),
{
    let ghost start = backend::device_views(list@);
    let ghost all = backend::device_views(more@);
    let mut i: usize = 0;
    assert(start + all.take(0) =~= start);
    while i < more.len()
        invariant
            i <= more@.len(),
            all == backend::device_views(more@),
            backend::device_views(list@) == start + all.take(i as int),
        decreases more@.len() - i,
    {
        let ghost before = backend::device_views(list@);
        list.push(same_device(&more[i]));
        assert(backend::device_views(list@) =~= before.push(all[i as int]));
        i += 1;
        assert(backend::device_views(list@) =~= start + all.take(i as int));
    }
    assert(all.take(i as int) =~= all);
}

/// The devices of all backends that could list theirs, backend by backend.
pub fn gather(found: &Vec<Option<Vec<Device>>>) -> (list: Vec<Device>)
    ensures
        backend::device_views(list@) == gathered(found_views(found@)),
{
    let ghost all = found_views(found@);
    let mut list: Vec<Device> = Vec::new();
    let mut i: usize = 0;
    assert(backend::device_views(list@) =~= gathered(all.take(0)));
    while i < found.len()
        invariant
            i <= found@.len(),
            all == found_views(found@),
            backend::device_views(list@) == gathered(all.take(i as int)),
        decreases found@.len() - i,
    {
        assert(all.take(i + 1).drop_last() =~= all.take(i as int));
        match &found[i] {
            Some(devices) => push_devices(&mut list, devices),
            None => {
                assert(gathered(all.take(i as int)) + Seq::<DeviceView>::empty() =~= gathered(
                    all.take(i as int),
                ));
            },
        }
        i += 1;
    }
    assert(all.take(i as int) =~= all);
    list
}

/// Why a filter does not mean one device.
#[derive(Debug)]
pub enum ResolveError {
    /// It picks no device.
    NoMatch(String),
    /// It picks more than one.
    Ambiguous(String),
}

/// What is said when a filter picks no device.
pub open spec fn no_match_text(filter: Seq<char>) -> Seq<char> {
    "no device matched `"@ + filter + "`"@
}

/// What is said when a filter picks several devices.
pub open spec fn ambiguous_text(filter: Seq<char>, picked: Seq<DeviceView>) -> Seq<char> {
    "filter `"@ + filter + "` matched "@ + text::decimal_text(picked.len()) + " devices:\n  "@
        + text::joined(id_texts(picked), "\n  "@)
}

impl ResolveError {
    /// What is said of the filter.
    pub open spec fn message(&self) -> Seq<char> {
        match *self {
            ResolveError::NoMatch(message) => message@,
            ResolveError::Ambiguous(message) => message@,
        }
    }

    /// What is said of the filter.
    pub fn to_string(&self) -> (s: String)
        ensures
            s@ == self.message(),
    {
        match self {
            ResolveError::NoMatch(message) => message.clone(),
            ResolveError::Ambiguous(message) => message.clone(),
        }
    }
}

/// What is said when a filter picks no device.
pub fn no_match_message(filter: &str) -> (message: String)
    ensures
        message@ == no_match_text(filter@),
{
    let mut message = "no device matched `".to_owned();
    message.append(filter);
    message.append("`");
    message
}

/// The written ids of devices.
fn ids_of(devices: &Vec<Device>) -> (ids: Vec<String>)
    ensures
        text::texts(ids@) == id_texts(backend::device_views(devices@)),
{
    let ghost all = id_texts(backend::device_views(devices@));
    let mut ids: Vec<String> = Vec::new();
    let mut i: usize = 0;
    assert(text::texts(ids@) =~= all.take(0));
    while i < devices.len()
        invariant
            i <= devices@.len(),
            all == id_texts(backend::device_views(devices@)),
            text::texts(ids@) == all.take(i as int),
        decreases devices@.len() - i,
    {
        let ghost before = text::texts(ids@);
        ids.push(devices[i].id.to_string());
        assert(text::texts(ids@) =~= before.push(ids@.last()@));
        i += 1;
        assert(text::texts(ids@) =~= all.take(i as int));
    }
    assert(all.take(i as int) =~= all);
    ids
}

/// What comes of a filter that is to mean one device: that device, if it is the only one picked,
/// or else what is wrong with the filter.
pub open spec fn means_one(
    picked: Seq<DeviceView>,
    filter: Seq<char>,
    r: Result<Device, ResolveError>,
) -> bool {
    &&& r is Ok <==> picked.len() == 1
    &&& r matches Ok(device) ==> device@ == picked[0]
    &&& r matches Err(e) ==> if picked.len() == 0 {
        e is NoMatch && e.message() == no_match_text(filter)
    } else {
        e is Ambiguous && e.message() == ambiguous_text(filter, picked)
    }
}

/// The one device of a list that a filter has picked.
fn only_device(list: Vec<Device>, filter: &str) -> (r: Result<Device, ResolveError>)
    ensures
        means_one(backend::device_views(list@), filter@, r),
{
    let mut list = list;
    let ghost picked = backend::device_views(list@);
    if list.len() == 0 {
        return Err(ResolveError::NoMatch(no_match_message(filter)));
    }
    if list.len() == 1 {
        assert(list@[0]@ == picked[0]);
        match list.pop() {
            Some(device) => {
                return Ok(device);
            },
            None => {},
        }
    }
    let mut message = "filter `".to_owned();
    message.append(filter);
    message.append("` matched ");
    text::push_decimal(&mut message, list.len() as u64);
    message.append(" devices:\n  ");
    let ids = ids_of(&list);
    message.append(text::join(&ids, "\n  ").as_str());
    Err(ResolveError::Ambiguous(message))
}

/// The one device whose written id contains a filter.
pub fn resolve_device(devices: &Vec<Device>, filter: &str) -> (r: Result<Device, ResolveError>)
    ensures
        means_one(containing(backend::device_views(devices@), filter@), filter@, r),
{
    only_device(picked_devices(devices, Some(filter), false), filter)
}

/// The one device that is meant by a written id, or by a part of one where no device has the
/// filter as its id.
pub fn resolve_id(devices: &Vec<Device>, filter: &str) -> (r: Result<Device, ResolveError>)
    ensures
        means_one(selected(backend::device_views(devices@), Some(filter@)), filter@, r),
{
    only_device(select_devices(devices, Some(filter)), filter)
}

// ---------------------------------------------------------------------------
// What holds of every filter
// ---------------------------------------------------------------------------

/// Without a filter, every device is selected.
pub proof fn law_no_filter_selects_all(devices: Seq<DeviceView>)
    ensures
        selected(devices, None) == devices,
{
    lemma_all_kept(devices, |d: DeviceView| picks(None, false, d.id));
}

/// Nothing is left out where everything meets the condition.
pub(crate) proof fn lemma_all_kept<A>(devices: Seq<A>, pred: spec_fn(A) -> bool)
    requires
        forall|i: int| 0 <= i < devices.len() ==> pred(#[trigger] devices[i]),
    ensures
        devices.filter(pred) == devices,
    decreases devices.len(),
{
    reveal(Seq::filter);
    if devices.len() > 0 {
        assert(pred(devices[devices.len() - 1]));
        assert forall|i: int| 0 <= i < devices.drop_last().len() implies pred(
            #[trigger] devices.drop_last()[i],
        ) by {
            assert(devices.drop_last()[i] == devices[i]);
        }
        lemma_all_kept(devices.drop_last(), pred);
        assert(devices.drop_last().push(devices.last()) =~= devices);
    }
}

/// A device is selected by its own written id, whatever other devices there are, and so is no
/// device with another id.
pub proof fn law_full_id_selects_its_device(devices: Seq<DeviceView>, i: int)
    requires
        0 <= i < devices.len(),
    ensures
        selected(devices, Some(backend::id_text(devices[i].id))).contains(devices[i]),
        forall|k: int|
            0 <= k < selected(devices, Some(backend::id_text(devices[i].id))).len()
                ==> backend::id_text(
                (#[trigger] selected(devices, Some(backend::id_text(devices[i].id)))[k]).id,
            ) == backend::id_text(devices[i].id),
{
    let id = backend::id_text(devices[i].id);
    assert(names_device(devices, Some(id)));
    let pred = |d: DeviceView| picks(Some(id), true, d.id);
    assert(pred(devices[i]));
    devices.lemma_filter_contains(pred, i);
    assert forall|k: int| 0 <= k < devices.filter(pred).len() implies backend::id_text(
        (#[trigger] devices.filter(pred)[k]).id,
    ) == id by {
        devices.lemma_filter_pred(pred, k);
    }
}

/// Where no two devices have the same written id, the written id of a device means exactly that
/// device, also where other ids contain it.
pub proof fn law_full_id_means_one_device(devices: Seq<DeviceView>, i: int)
    requires
        0 <= i < devices.len(),
        distinct_ids(devices),
    ensures
        selected(devices, Some(backend::id_text(devices[i].id))) == seq![devices[i]],
{
    let id = backend::id_text(devices[i].id);
    assert(names_device(devices, Some(id)));
    let pred = |d: DeviceView| picks(Some(id), true, d.id);
    lemma_one_left(devices, pred, i, devices.len() as int);
    assert(devices.take(devices.len() as int) =~= devices);
}

/// No two devices have the same written id.
pub open spec fn distinct_ids(devices: Seq<DeviceView>) -> bool {
    forall|i: int, j: int|
        0 <= i < j < devices.len() ==> backend::id_text((#[trigger] devices[i]).id)
            != backend::id_text((#[trigger] devices[j]).id)
}

/// One thing is left where nothing else meets the condition.
pub(crate) proof fn lemma_one_left<A>(
    devices: Seq<A>,
    pred: spec_fn(A) -> bool,
    i: int,
    n: int,
)
    requires
        0 <= i < devices.len(),
        0 <= n <= devices.len(),
        pred(devices[i]),
        forall|j: int| 0 <= j < devices.len() && j != i ==> !pred(#[trigger] devices[j]),
    ensures
        devices.take(n).filter(pred) == if i < n {
            seq![devices[i]]
        } else {
            Seq::empty()
        },
    decreases n,
{
    reveal(Seq::filter);
    if n > 0 {
        lemma_one_left(devices, pred, i, n - 1);
        assert(devices.take(n).drop_last() =~= devices.take(n - 1));
        assert(devices.take(n).last() == devices[n - 1]);
    }
    assert(devices.take(n).filter(pred) =~= if i < n {
        seq![devices[i]]
    } else {
        Seq::empty()
    });
}

/// Every selected device has an id that contains the filter, and where no device has the filter
/// as its whole id, every device with such an id is selected.
pub proof fn law_selection_is_by_part_of_id(devices: Seq<DeviceView>, filter: Seq<char>)
    ensures
        forall|d: DeviceView| #[trigger]
            selected(devices, Some(filter)).contains(d) ==> containing(devices, filter).contains(d),
        !names_device(devices, Some(filter)) ==> selected(devices, Some(filter)) == containing(
            devices,
            filter,
        ),
{
    let whole = names_device(devices, Some(filter));
    let pred = |d: DeviceView| picks(Some(filter), whole, d.id);
    let part = |d: DeviceView| picks(Some(filter), false, d.id);
    assert forall|d: DeviceView| #[trigger] selected(devices, Some(filter)).contains(
        d,
    ) implies containing(devices, filter).contains(d) by {
        let k = choose|k: int| 0 <= k < devices.filter(pred).len() && devices.filter(pred)[k] == d;
        devices.lemma_filter_pred(pred, k);
        devices.lemma_filter_contains_rev(pred, d);
        let s = backend::id_text(d.id);
        if s == filter {
            assert(s.subrange(0, 0int + s.len()) =~= s);
        }
        assert(part(d));
        let i = choose|i: int| 0 <= i < devices.len() && devices[i] == d;
        devices.lemma_filter_contains(part, i);
    }
}

/// A filter that is part of another one, and no whole id, selects at least the devices that the
/// other selects.
pub proof fn law_shorter_filter_picks_more(
    devices: Seq<DeviceView>,
    i: int,
    long: Seq<char>,
    short: Seq<char>,
)
    requires
        0 <= i < devices.len(),
        picks(Some(long), names_device(devices, Some(long)), devices[i].id),
        text::has_fragment(long, short),
        !names_device(devices, Some(short)),
    ensures
        selected(devices, Some(short)).contains(devices[i]),
{
    let s = backend::id_text(devices[i].id);
    if s == long {
        assert(s.subrange(0, 0int + s.len()) =~= s);
    }
    let a = choose|at: int|
        0 <= at <= s.len() - long.len() && #[trigger] s.subrange(at, at + long.len()) == long;
    let b = choose|at: int|
        0 <= at <= long.len() - short.len() && #[trigger] long.subrange(at, at + short.len())
            == short;
    assert(s.subrange(a + b, a + b + short.len()) =~= long.subrange(b, b + short.len()));
    let pred = |d: DeviceView| picks(Some(short), false, d.id);
    assert(pred(devices[i]));
    devices.lemma_filter_contains(pred, i);
}

} // verus!
