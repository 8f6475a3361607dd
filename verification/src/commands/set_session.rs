//! The painting of all selected devices, step by step: the backends are asked for their devices
//! one after another, and the selected devices of one are painted before the next is asked. Only
//! a filter that may be the whole id of a device of a later backend is kept waiting, since such
//! an id wins over ids that contain it. A backend that cannot list its devices is passed over; a
//! device that cannot be painted does not stop the others.

use crate::backend::{self, Backend, Color, Device, DeviceIdView, DeviceView};
use crate::backends::catalog;
use crate::commands::results::{self, SetResult, SetResultView};
use crate::commands::select;
use crate::text;
use vstd::prelude::*;

verus! {

/// The number of backends.
pub const BACKENDS: usize = 3;

/// What is to be done next.
#[derive(Debug, Clone, Copy, PartialEq, Eq, Structural)]
pub enum SetStep {
    /// Ask this backend for its devices.
    Enumerate {
        /// The backend's place in the list of all backends.
        backend: usize,
    },
    /// Paint the current device, which belongs to this backend.
    Paint {
        /// The backend's place in the list of all backends.
        backend: usize,
    },
    /// Nothing: the results are complete.
    Finish,
}

/// A device and the place of the backend that listed it.
#[derive(Debug)]
pub struct Target {
    pub backend: usize,
    pub device: Device,
}

/// A `Target` as mathematical values.
pub struct TargetView {
    pub backend: nat,
    pub device: DeviceView,
}

impl View for Target {
    type V = TargetView;

    open spec fn view(&self) -> TargetView {
        TargetView { backend: self.backend as nat, device: self.device@ }
    }
}

/// The targets of a list, as mathematical values.
pub open spec fn target_views(list: Seq<Target>) -> Seq<TargetView> {
    list.map_values(|t: Target| t@)
}

/// The devices of targets.
pub open spec fn devices_of(targets: Seq<TargetView>) -> Seq<DeviceView> {
    targets.map_values(|t: TargetView| t.device)
}

/// What a backend listed, as mathematical values.
pub open spec fn found_view(found: Option<Vec<Device>>) -> Option<Seq<DeviceView>> {
    match found {
        Some(devices) => Some(backend::device_views(devices@)),
        None => None,
    }
}

/// What a backend listed, as targets: none, where it could not list its devices.
pub open spec fn listed_by(backend: nat, found: Option<Seq<DeviceView>>) -> Seq<TargetView> {
    match found {
        Some(devices) => devices.map_values(|device: DeviceView| TargetView { backend, device }),
        None => Seq::empty(),
    }
}

/// The targets whose devices a filter picks, in their order, given whether it is a whole id.
pub open spec fn picked(targets: Seq<TargetView>, filter: Option<Seq<char>>, whole: bool) -> Seq<
    TargetView,
> {
    targets.filter(|t: TargetView| select::picks(filter, whole, t.device.id))
}

/// The targets whose devices a filter picks, in their order. An id that equals the filter wins
/// over ids that contain it.
pub open spec fn chosen(targets: Seq<TargetView>, filter: Option<Seq<char>>) -> Seq<TargetView> {
    picked(targets, filter, select::names_device(devices_of(targets), filter))
}

/// The filter may be the whole id of a device of one of the backends from `from` on: it begins
/// with the backend's name and a colon.
pub open spec fn may_name(filter: Option<Seq<char>>, from: nat) -> bool {
    filter matches Some(part) && exists|b: int|
        from <= b < BACKENDS && text::begins_with(part, #[trigger] catalog::labels()[b] + ":"@)
}

/// The painting, as far as it has come.
pub struct SetSession {
    filter: Option<String>,
    asked: usize,
    named: bool,
    held: Vec<Target>,
    queue: Vec<Target>,
    next: usize,
    results: Vec<SetResult>,
}

/// A `SetSession` as mathematical values: the filter, how many backends have been asked, whether
/// the filter is known to be a whole id, what was listed as long as it is not known which of it
/// is meant, the targets that are to be painted next, and the results so far.
pub struct SetState {
    pub filter: Option<Seq<char>>,
    pub asked: nat,
    pub named: bool,
    pub held: Seq<TargetView>,
    pub queue: Seq<TargetView>,
    pub results: Seq<SetResultView>,
}

impl View for SetSession {
    type V = SetState;

    closed spec fn view(&self) -> SetState {
        SetState {
            filter: results::optional_text(self.filter),
            asked: self.asked as nat,
            named: self.named,
            held: target_views(self.held@),
            queue: target_views(self.queue@).skip(self.next as int),
            results: results::result_views(self.results@),
        }
    }
}

impl SetState {
    /// The step that is due.
    pub open spec fn due(self) -> SetStep {
        if self.queue.len() > 0 {
            SetStep::Paint { backend: self.queue[0].backend as usize }
        } else if self.asked < BACKENDS {
            SetStep::Enumerate { backend: self.asked as usize }
        } else {
            SetStep::Finish
        }
    }

    /// Targets come from backends that are there, and none is held once all backends have been
    /// asked.
    pub open spec fn wf(self) -> bool {
        &&& self.asked <= BACKENDS
        &&& self.held.len() > 0 ==> self.asked < BACKENDS
        &&& from_backends(self.held)
        &&& from_backends(self.queue)
    }

    /// The state once the next backend has listed its devices, or failed to.
    pub open spec fn after_enumeration(self, found: Option<Seq<DeviceView>>) -> SetState {
        let all = self.held + listed_by(self.asked, found);
        if may_name(self.filter, self.asked + 1) {
            SetState { asked: self.asked + 1, held: all, ..self }
        } else {
            let named = self.named || select::names_device(devices_of(all), self.filter);
            SetState {
                asked: self.asked + 1,
                named,
                held: Seq::empty(),
                queue: picked(all, self.filter, named),
                ..self
            }
        }
    }

    /// The state once the current device has been painted, or failed to be.
    pub open spec fn after_painting(self, error: Option<Seq<char>>) -> SetState {
        SetState {
            queue: self.queue.skip(1),
            results: self.results.push(
                SetResultView { id: backend::id_text(self.queue[0].device.id), error },
            ),
            ..self
        }
    }
}

/// All targets come from backends that are there.
pub open spec fn from_backends(targets: Seq<TargetView>) -> bool {
    forall|i: int| 0 <= i < targets.len() ==> (#[trigger] targets[i]).backend < BACKENDS
}

/// Whatever a filter picks comes from a backend that is there, if all targets do.
proof fn lemma_picked_backends(targets: Seq<TargetView>, filter: Option<Seq<char>>, whole: bool)
    requires
        from_backends(targets),
    ensures
        from_backends(picked(targets, filter, whole)),
{
    let pred = |t: TargetView| select::picks(filter, whole, t.device.id);
    assert forall|i: int| 0 <= i < picked(targets, filter, whole).len() implies (#[trigger] picked(
        targets,
        filter,
        whole,
    )[i]).backend < BACKENDS by {
        let t = targets.filter(pred)[i];
        assert(targets.filter(pred).contains(t));
        targets.lemma_filter_contains_rev(pred, t);
        let k = choose|k: int| 0 <= k < targets.len() && targets[k] == t;
        assert(targets[k].backend < BACKENDS);
    }
}

/// Asking a backend keeps a state in order.
proof fn lemma_enumeration_keeps_order(s: SetState, found: Option<Seq<DeviceView>>)
    requires
        s.wf(),
        s.due() is Enumerate,
    ensures
        s.after_enumeration(found).wf(),
{
    let all = s.held + listed_by(s.asked, found);
    assert forall|i: int| 0 <= i < all.len() implies (#[trigger] all[i]).backend < BACKENDS by {
        if i < s.held.len() {
            assert(all[i] == s.held[i]);
        }
    }
    lemma_picked_backends(all, s.filter, s.after_enumeration(found).named);
}

/// Whether a filter may be the whole id of a device of one of the backends from `from` on.
fn may_be_named(filter: Option<&str>, from: usize) -> (yes: bool)
    ensures
        yes == may_name(select::filter_view(filter), from as nat),
{
    let part = match filter {
        Some(part) => text::chars_of(part),
        None => {
            return false;
        },
    };
    let mut b: usize = from;
    while b < BACKENDS
        invariant
            from <= b,
            select::filter_view(filter) == Some(part@),
            forall|k: int|
                from <= k < b && k < BACKENDS ==> !text::begins_with(
                    part@,
                    #[trigger] catalog::labels()[k] + ":"@,
                ),
        decreases BACKENDS - b,
    {
        let mut head = catalog::name_at(b).to_owned();
        head.append(":");
        if text::starts_with(&part, &text::chars_of(head.as_str())) {
            assert(text::begins_with(part@, catalog::labels()[b as int] + ":"@));
            return true;
        }
        b += 1;
    }
    false
}

/// Appends what a backend listed to a list of targets.
fn push_listed(list: &mut Vec<Target>, backend: usize, found: &Option<Vec<Device>>)
    ensures
        target_views(final(list)@) == target_views(old(list)@) + listed_by(
            backend as nat,
            found_view(*found),
        ),
{
    let ghost start = target_views(list@);
    let devices = match found {
        Some(devices) => devices,
        None => {
            assert(start + Seq::<TargetView>::empty() =~= start);
            return ;
        },
    };
    let ghost all = listed_by(backend as nat, Some(backend::device_views(devices@)));
    let mut i: usize = 0;
    assert(start + all.take(0) =~= start);
    while i < devices.len()
        invariant
            i <= devices@.len(),
            all == listed_by(backend as nat, Some(backend::device_views(devices@))),
            target_views(list@) == start + all.take(i as int),
        decreases devices@.len() - i,
    {
        let ghost before = target_views(list@);
        list.push(Target { backend, device: select::same_device(&devices[i]) });
        assert(list@.last()@ == all[i as int]);
        assert(target_views(list@) =~= before.push(list@.last()@));
        i += 1;
        assert(target_views(list@) =~= start + all.take(i as int));
    }
    assert(all.take(i as int) =~= all);
}

/// Whether a filter is the whole written id of one of the targets' devices.
fn is_named(targets: &Vec<Target>, filter: Option<&str>) -> (yes: bool)
    ensures
        yes == select::names_device(
            devices_of(target_views(targets@)),
            select::filter_view(filter),
        ),
{
    let ghost all = devices_of(target_views(targets@));
    let mut i: usize = 0;
    while i < targets.len()
        invariant
            i <= targets@.len(),
            all == devices_of(target_views(targets@)),
            forall|k: int|
                0 <= k < i ==> select::filter_view(filter) != Some(
                    backend::id_text((#[trigger] all[k]).id),
                ),
        decreases targets@.len() - i,
    {
        if select::is_whole_id(filter, &targets[i].device.id) {
            assert(backend::id_text(all[i as int].id) == select::filter_view(filter).unwrap());
            return true;
        }
        i += 1;
    }
    false
}

/// The targets whose devices a filter picks, in their order, given whether it is a whole id.
fn pick_targets(targets: &Vec<Target>, filter: Option<&str>, whole: bool) -> (list: Vec<Target>)
    ensures
        target_views(list@) == picked(target_views(targets@), select::filter_view(filter), whole),
{
    let ghost all = target_views(targets@);
    let ghost pred = |t: TargetView|
        select::picks(select::filter_view(filter), whole, t.device.id);
    let mut list: Vec<Target> = Vec::new();
    let mut i: usize = 0;
    proof {
        reveal(Seq::filter);
        assert(target_views(list@) =~= all.take(0).filter(pred));
    }
    while i < targets.len()
        invariant
            i <= targets@.len(),
            all == target_views(targets@),
            pred == (|t: TargetView|
                select::picks(select::filter_view(filter), whole, t.device.id)),
            target_views(list@) == all.take(i as int).filter(pred),
        decreases targets@.len() - i,
    {
        proof {
            reveal(Seq::filter);
            assert(all.take(i + 1).drop_last() =~= all.take(i as int));
        }
        let t = &targets[i];
        if select::is_picked(filter, whole, &t.device.id) {
            let ghost before = target_views(list@);
            list.push(Target { backend: t.backend, device: select::same_device(&t.device) });
            assert(list@.last()@ == all[i as int]);
            assert(target_views(list@) =~= before.push(list@.last()@));
        }
        i += 1;
    }
    assert(all.take(i as int) =~= all);
    list
}

impl SetSession {
    /// The session is in order.
    pub closed spec fn wf(&self) -> bool {
        self@.wf() && self.next <= self.queue@.len()
    }

    /// Begins a painting.
    pub fn start(filter: Option<&str>) -> (session: Self)
        ensures
            session.wf(),
            session@ == first_state(select::filter_view(filter)),
    {
        let session = SetSession {
            filter: match filter {
                Some(part) => Some(part.to_owned()),
                None => None,
            },
            asked: 0,
            named: false,
            held: Vec::new(),
            queue: Vec::new(),
            next: 0,
            results: Vec::new(),
        };
        assert(session@.held =~= Seq::<TargetView>::empty());
        assert(session@.queue =~= Seq::<TargetView>::empty());
        assert(session@.results =~= Seq::<SetResultView>::empty());
        session
    }

    /// The step that is due.
    pub fn due(&self) -> (step: SetStep)
        requires
            self.wf(),
        ensures
            step == self@.due(),
            step matches SetStep::Enumerate { backend } ==> backend < BACKENDS,
            step matches SetStep::Paint { backend } ==> backend < BACKENDS,
    {
        if self.next < self.queue.len() {
            assert(self@.queue[0] == self.queue@[self.next as int]@);
            SetStep::Paint { backend: self.queue[self.next].backend }
        } else if self.asked < BACKENDS {
            SetStep::Enumerate { backend: self.asked }
        } else {
            SetStep::Finish
        }
    }

    /// Takes in the devices of the backend that was asked; `None` where it could not list them.
    pub fn enumerated(&mut self, found: Option<Vec<Device>>)
        requires
            old(self).wf(),
            old(self)@.due() is Enumerate,
        ensures
            final(self).wf(),
            final(self)@ == old(self)@.after_enumeration(found_view(found)),
    {
        let ghost before = self@;
        let ghost listed = found_view(found);
        proof {
            lemma_enumeration_keeps_order(before, listed);
        }
        push_listed(&mut self.held, self.asked, &found);
        let ghost all = before.held + listed_by(before.asked, listed);
        assert(target_views(self.held@) == all);
        self.asked += 1;
        let filter = match &self.filter {
            Some(part) => Some(part.as_str()),
            None => None,
        };
        if may_be_named(filter, self.asked) {
            assert(self@.queue =~= before.queue);
        } else {
            let named = self.named || is_named(&self.held, filter);
            self.queue = pick_targets(&self.held, filter, named);
            self.named = named;
            self.next = 0;
            self.held = Vec::new();
            assert(self@.queue =~= picked(all, before.filter, named));
            assert(self@.held =~= Seq::<TargetView>::empty());
        }
    }

    /// The device that is to be painted.
    pub fn current(&self) -> (device: &Device)
        requires
            self.wf(),
            self@.due() is Paint,
        ensures
            device@ == self@.queue[0].device,
    {
        assert(self@.queue[0] == self.queue@[self.next as int]@);
        &self.queue[self.next].device
    }

    /// Takes in what came of painting the current device: what is said of the failure, if it
    /// failed.
    pub fn painted(&mut self, error: Option<String>)
        requires
            old(self).wf(),
            old(self)@.due() is Paint,
        ensures
            final(self).wf(),
            final(self)@ == old(self)@.after_painting(results::optional_text(error)),
    {
        let ghost before = self@;
        assert(before.queue[0] == self.queue@[self.next as int]@);
        let id = self.queue[self.next].device.id.to_string();
        self.results.push(SetResult { id, error });
        if self.next < self.queue.len() {
            self.next += 1;
        }
        assert(self@.queue =~= before.queue.skip(1));
        assert(self@.results =~= before.after_painting(results::optional_text(error)).results);
        assert forall|i: int| 0 <= i < self@.queue.len() implies (
        #[trigger] self@.queue[i]).backend < BACKENDS by {
            assert(self@.queue[i] == before.queue[i + 1]);
        }
    }

    /// The results, once nothing is left to be done; `None` before that.
    pub fn results(&self) -> (results: Option<&Vec<SetResult>>)
        requires
            self.wf(),
        ensures
            results is Some <==> self@.due() is Finish,
            results matches Some(list) ==> results::result_views(list@) == self@.results,
    {
        if self.next < self.queue.len() || self.asked < BACKENDS {
            None
        } else {
            Some(&self.results)
        }
    }
}

// ---------------------------------------------------------------------------
// What a whole painting comes to
// ---------------------------------------------------------------------------

/// The state in which a painting begins.
pub open spec fn first_state(filter: Option<Seq<char>>) -> SetState {
    SetState {
        filter,
        asked: 0,
        named: false,
        held: Seq::empty(),
        queue: Seq::empty(),
        results: Seq::empty(),
    }
}

/// What the backends list: the devices of each, by its place, if it can list them.
pub type Listing = spec_fn(nat) -> Option<Seq<DeviceView>>;

/// What painting does: the failure, if there is one, of the painting with the given number, done
/// by the backend at the given place.
pub type Painting = spec_fn(nat, nat) -> Option<Seq<char>>;

/// Everything that the backends from `from` on list, in order.
pub open spec fn all_targets(listing: Listing, from: nat) -> Seq<TargetView>
    decreases BACKENDS - from,
{
    if from >= BACKENDS {
        Seq::empty()
    } else {
        listed_by(from, listing(from)) + all_targets(listing, from + 1)
    }
}

/// The targets of a painting: what the filter picks from everything that the backends list.
pub open spec fn targets(listing: Listing, filter: Option<Seq<char>>) -> Seq<TargetView> {
    chosen(all_targets(listing, 0), filter)
}

/// The results of painting targets, the first of which is painted after `done` others.
pub open spec fn painted_results(list: Seq<TargetView>, painting: Painting, done: nat) -> Seq<
    SetResultView,
> {
    Seq::new(
        list.len(),
        |i: int|
            SetResultView {
                id: backend::id_text(list[i].device.id),
                error: painting((done + i) as nat, list[i].backend),
            },
    )
}

/// The state after one step.
pub open spec fn after_step(s: SetState, listing: Listing, painting: Painting) -> SetState {
    match s.due() {
        SetStep::Enumerate { backend } => s.after_enumeration(listing(backend as nat)),
        SetStep::Paint { backend } => s.after_painting(
            painting(s.results.len(), backend as nat),
        ),
        SetStep::Finish => s,
    }
}

/// A painting carried on for a number of steps.
pub open spec fn session_run(s: SetState, listing: Listing, painting: Painting, steps: nat) -> SetState
    decreases steps,
{
    if steps == 0 {
        s
    } else {
        session_run(after_step(s, listing, painting), listing, painting, (steps - 1) as nat)
    }
}

/// Every backend lists devices under its own name only.
pub open spec fn under_own_names(listing: Listing) -> bool {
    forall|b: nat, i: int|
        b < BACKENDS && 0 <= i < listed_by(b, listing(b)).len() ==> (#[trigger] listed_by(
            b,
            listing(b),
        )[i]).device.id.backend == catalog::labels()[b as int]
}

/// Whatever the transport reports, a backend that stands at the place of its name lists devices
/// under that name only.
pub proof fn law_backends_list_under_own_names<B: Backend>(b: &B, found: B::Found, place: nat)
    requires
        place < BACKENDS,
        b.label() == catalog::labels()[place as int],
    ensures
        forall|i: int|
            0 <= i < listed_by(place, Some(b.devices_in(found))).len() ==> (#[trigger] listed_by(
                place,
                Some(b.devices_in(found)),
            )[i]).device.id.backend == catalog::labels()[place as int],
{
    assert forall|i: int|
        0 <= i < listed_by(place, Some(b.devices_in(found))).len() implies (#[trigger] listed_by(
        place,
        Some(b.devices_in(found)),
    )[i]).device.id.backend == catalog::labels()[place as int] by {
        b.law_enumerated_devices_can_be_painted(found, Color { r: 0, g: 0, b: 0 }, i);
    }
}

/// What is still to be painted.
pub open spec fn still_to_paint(s: SetState, listing: Listing) -> Seq<TargetView> {
    let rest = s.held + all_targets(listing, s.asked);
    s.queue + picked(
        rest,
        s.filter,
        s.named || select::names_device(devices_of(rest), s.filter),
    )
}

/// A filter is a whole id in one list or the other where it is one in both together.
proof fn lemma_named_in_either(a: Seq<TargetView>, b: Seq<TargetView>, filter: Option<Seq<char>>)
    ensures
        select::names_device(devices_of(a + b), filter) <==> select::names_device(
            devices_of(a),
            filter,
        ) || select::names_device(devices_of(b), filter),
{
    let both = devices_of(a + b);
    assert(both =~= devices_of(a) + devices_of(b));
    if select::names_device(devices_of(a), filter) {
        let i = choose|i: int|
            0 <= i < devices_of(a).len() && Some(
                backend::id_text((#[trigger] devices_of(a)[i]).id),
            ) == filter;
        assert(both[i] == devices_of(a)[i]);
    }
    if select::names_device(devices_of(b), filter) {
        let i = choose|i: int|
            0 <= i < devices_of(b).len() && Some(
                backend::id_text((#[trigger] devices_of(b)[i]).id),
            ) == filter;
        assert(both[a.len() + i] == devices_of(b)[i]);
    }
    if select::names_device(both, filter) {
        let i = choose|i: int|
            0 <= i < both.len() && Some(backend::id_text((#[trigger] both[i]).id)) == filter;
        if i < a.len() {
            assert(both[i] == devices_of(a)[i]);
        } else {
            assert(both[i] == devices_of(b)[i - a.len()]);
        }
    }
}

/// A filter that begins with the name of none of the backends from `from` on is no whole id of
/// their devices.
proof fn lemma_not_named_later(listing: Listing, filter: Option<Seq<char>>, from: nat)
    requires
        under_own_names(listing),
        !may_name(filter, from),
    ensures
        !select::names_device(devices_of(all_targets(listing, from)), filter),
    decreases BACKENDS - from,
{
    if from < BACKENDS {
        let listed = listed_by(from, listing(from));
        let devices = devices_of(listed);
        lemma_not_named_later(listing, filter, from + 1);
        lemma_named_in_either(listed, all_targets(listing, from + 1), filter);
        if select::names_device(devices, filter) {
            let i = choose|i: int|
                0 <= i < devices.len() && Some(backend::id_text((#[trigger] devices[i]).id))
                    == filter;
            let id: DeviceIdView = devices[i].id;
            let head = catalog::labels()[from as int] + ":"@;
            assert(listed[i].device.id.backend == catalog::labels()[from as int]);
            assert(backend::id_text(id).take(head.len() as int) =~= head);
            assert(text::begins_with(filter.unwrap(), catalog::labels()[from as int] + ":"@));
        }
    }
}

/// A step by which a backend is asked changes nothing about what is still to be painted.
proof fn lemma_asking(s: SetState, listing: Listing)
    requires
        s.wf(),
        s.due() is Enumerate,
        under_own_names(listing),
    ensures
        ({
            let next = s.after_enumeration(listing(s.asked));
            &&& next.wf()
            &&& still_to_paint(next, listing) == still_to_paint(s, listing)
        }),
{
    let listed = listed_by(s.asked, listing(s.asked));
    let all = s.held + listed;
    let next = s.after_enumeration(listing(s.asked));
    let rest = all_targets(listing, s.asked + 1);
    lemma_enumeration_keeps_order(s, listing(s.asked));
    assert(s.held + (listed + rest) =~= all + rest);
    if !may_name(s.filter, s.asked + 1) {
        let named = next.named;
        let pred = |t: TargetView| select::picks(s.filter, named, t.device.id);
        lemma_not_named_later(listing, s.filter, s.asked + 1);
        lemma_named_in_either(all, rest, s.filter);
        Seq::filter_distributes_over_add(all, rest, pred);
        assert(next.held + rest =~= rest);
        assert(s.queue =~= Seq::empty());
        assert(still_to_paint(s, listing) =~= picked(all + rest, s.filter, named));
        assert(still_to_paint(next, listing) =~= picked(all, s.filter, named) + picked(
            rest,
            s.filter,
            named,
        ));
    }
}

proof fn lemma_session_run(s: SetState, listing: Listing, painting: Painting, steps: nat)
    requires
        s.wf(),
        under_own_names(listing),
        steps >= still_to_paint(s, listing).len() + (BACKENDS - s.asked),
    ensures
        ({
            let end = session_run(s, listing, painting, steps);
            &&& end.due() is Finish
            &&& end.results == s.results + painted_results(
                still_to_paint(s, listing),
                painting,
                s.results.len(),
            )
        }),
    decreases steps,
{
    let list = still_to_paint(s, listing);
    let rest = painted_results(list, painting, s.results.len());
    let next = after_step(s, listing, painting);
    if s.due() is Finish {
        reveal(Seq::filter);
        assert(list =~= Seq::empty());
        assert(s.results + rest =~= s.results);
        if steps > 0 {
            lemma_session_run(s, listing, painting, (steps - 1) as nat);
        }
    } else {
        if s.due() is Enumerate {
            lemma_asking(s, listing);
        } else {
            assert(s.queue[0].backend < BACKENDS);
            assert(still_to_paint(next, listing) =~= list.skip(1));
            assert forall|i: int| 0 <= i < next.queue.len() implies (
            #[trigger] next.queue[i]).backend < BACKENDS by {
                assert(next.queue[i] == s.queue[i + 1]);
            }
        }
        lemma_session_run(next, listing, painting, (steps - 1) as nat);
        assert(next.results + painted_results(
            still_to_paint(next, listing),
            painting,
            next.results.len(),
        ) =~= s.results + rest);
    }
}

/// Whatever the backends list under their own names and however painting goes, a painting ends,
/// and it has painted exactly the devices that the filter picks, each once and by the backend
/// that listed it, backend by backend and within a backend in the order listed. Backends that
/// cannot list their devices and devices that cannot be painted stop nothing.
pub proof fn law_every_selected_device_is_painted_once(
    filter: Option<Seq<char>>,
    listing: Listing,
    painting: Painting,
)
    requires
        under_own_names(listing),
    ensures
        ({
            let list = targets(listing, filter);
            let end = session_run(
                first_state(filter),
                listing,
                painting,
                list.len() + BACKENDS as nat,
            );
            &&& end.due() is Finish
            &&& end.results == painted_results(list, painting, 0)
        }),
{
    let list = targets(listing, filter);
    let s = first_state(filter);
    let all = all_targets(listing, 0);
    assert(s.held + all =~= all);
    assert(still_to_paint(s, listing) =~= list);
    lemma_session_run(s, listing, painting, list.len() + BACKENDS as nat);
    assert(s.results + painted_results(list, painting, 0) =~= painted_results(list, painting, 0));
}

/// The selected devices of a backend are painted before the next backend is asked, unless the
/// filter may be the whole id of a device of a later one. In particular nothing waits without a
/// filter, or with one that begins with no backend's name.
pub proof fn law_painting_waits_for_whole_ids_only(
    listing: Listing,
    painting: Painting,
    s: SetState,
)
    requires
        s.wf(),
        s.held.len() == 0,
        s.due() is Enumerate,
        !may_name(s.filter, s.asked + 1),
    ensures
        ({
            let listed = listed_by(s.asked, listing(s.asked));
            let next = after_step(s, listing, painting);
            &&& next.held.len() == 0
            &&& next.queue == picked(
                listed,
                s.filter,
                s.named || select::names_device(devices_of(listed), s.filter),
            )
            &&& next.queue.len() > 0 ==> next.due() is Paint
            &&& !may_name(s.filter, next.asked + 1)
        }),
{
    let listed = listed_by(s.asked, listing(s.asked));
    assert(s.held + listed =~= listed);
}

/// The devices of the targets are those that the filter selects from all devices of all
/// backends.
pub proof fn law_targets_are_the_selected_devices(listing: Listing, filter: Option<Seq<char>>)
    ensures
        devices_of(targets(listing, filter)) == select::selected(
            devices_of(all_targets(listing, 0)),
            filter,
        ),
{
    let all = all_targets(listing, 0);
    let whole = select::names_device(devices_of(all), filter);
    lemma_devices_kept(all, filter, whole);
}

proof fn lemma_devices_kept(list: Seq<TargetView>, filter: Option<Seq<char>>, whole: bool)
    ensures
        devices_of(list.filter(|t: TargetView| select::picks(filter, whole, t.device.id)))
            == devices_of(list).filter(|d: DeviceView| select::picks(filter, whole, d.id)),
    decreases list.len(),
{
    reveal(Seq::filter);
    let of_targets = |t: TargetView| select::picks(filter, whole, t.device.id);
    let of_devices = |d: DeviceView| select::picks(filter, whole, d.id);
    if list.len() > 0 {
        lemma_devices_kept(list.drop_last(), filter, whole);
        assert(devices_of(list).drop_last() =~= devices_of(list.drop_last()));
    }
    assert(devices_of(list.filter(of_targets)) =~= devices_of(list).filter(of_devices));
}

/// Where no two devices of all backends have the same written id, the written id of a device as
/// the filter paints exactly that device, by its backend, also where other ids contain it.
pub proof fn law_full_id_paints_one_device(listing: Listing, i: int)
    requires
        0 <= i < all_targets(listing, 0).len(),
        select::distinct_ids(devices_of(all_targets(listing, 0))),
    ensures
        targets(listing, Some(backend::id_text(all_targets(listing, 0)[i].device.id))) == seq![
            all_targets(listing, 0)[i],
        ],
{
    let all = all_targets(listing, 0);
    let devices = devices_of(all);
    let id = backend::id_text(all[i].device.id);
    assert(devices[i] == all[i].device);
    assert(select::names_device(devices, Some(id)));
    let pred = |t: TargetView| select::picks(Some(id), true, t.device.id);
    assert forall|j: int| 0 <= j < all.len() && j != i implies !pred(#[trigger] all[j]) by {
        assert(devices[j] == all[j].device);
    }
    select::lemma_one_left(all, pred, i, all.len() as int);
    assert(all.take(all.len() as int) =~= all);
}

} // verus!
