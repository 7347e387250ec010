use vstd::prelude::*;

use crate::deadline::{deadline_of_text, parse_datetime_from_str, resolve_target, target_spec};
use crate::span::{
    Span, Stamp, elapsed, elapsed_spec, nanos_between, ordinary_stamp, representable_stamp,
    truncated_seconds,
};
use crate::status::ItemStatus;

verus! {

/// One tracked item.
#[derive(Debug, PartialEq)]
pub struct Item {
    pub id: u32,
    pub name: String,
    pub title: String,
    /// The deadline as written, see `parse_datetime_from_str`.
    pub dead_time: String,
    pub status: ItemStatus,
    /// Time left from the moment the items were loaded to the deadline.
    pub duration: Span,
}

/// `item` with its remaining time set to `duration`.
pub open spec fn with_duration(item: Item, duration: Span) -> Item {
    Item {
        id: item.id,
        name: item.name,
        title: item.title,
        dead_time: item.dead_time,
        status: item.status,
        duration: duration,
    }
}

/// `item` with its status set to `status`.
pub open spec fn with_status(item: Item, status: ItemStatus) -> Item {
    Item {
        id: item.id,
        name: item.name,
        title: item.title,
        dead_time: item.dead_time,
        status: status,
        duration: item.duration,
    }
}

/// The state of the board: when the items were loaded, the items, and
/// whether they were changed since.
pub struct AppState {
    pub init_time: Stamp,
    pub items: Vec<Item>,
    pub dirty: bool,
}

/// The first item whose remaining time chrono could not work out.
#[derive(Clone, Copy, Debug, PartialEq, Eq, Structural)]
pub struct SpanError {
    pub index: usize,
}

/// There is one target per loaded item, the instant its own deadline text
/// stands for, read with its own local-zone and clock readings.
pub proof fn lemma_targets_of(loaded: Seq<Item>, local_instants: Seq<Stamp>, nows: Seq<Stamp>, i: int)
    requires
        0 <= i < loaded.len(),
    ensures
        targets_of(loaded, local_instants, nows).len() == loaded.len(),
        targets_of(loaded, local_instants, nows)[i] == target_spec(
            deadline_of_text(loaded[i].dead_time@),
            local_instants[i],
            nows[i],
        ),
{
}

/// `items` are `loaded`, one for one, with the same id, name, title,
/// deadline text and status: only the remaining time may differ.
pub open spec fn keeps_all_but_time(loaded: Seq<Item>, items: Seq<Item>) -> bool {
    &&& items.len() == loaded.len()
    &&& forall|i: int|
        0 <= i < loaded.len() ==> {
            &&& (#[trigger] items[i]).id == loaded[i].id
            &&& items[i].name == loaded[i].name
            &&& items[i].title == loaded[i].title
            &&& items[i].dead_time == loaded[i].dead_time
            &&& items[i].status == loaded[i].status
        }
}

/// Setting the remaining time changes that and nothing else.
pub proof fn lemma_with_duration(item: Item, duration: Span)
    ensures
        with_duration(item, duration).duration == duration,
        with_duration(item, duration).id == item.id,
        with_duration(item, duration).name == item.name,
        with_duration(item, duration).title == item.title,
        with_duration(item, duration).dead_time == item.dead_time,
        with_duration(item, duration).status == item.status,
{
}

/// Setting the status changes that and nothing else, whatever the old
/// status was.
pub proof fn lemma_with_status(item: Item, status: ItemStatus)
    ensures
        with_status(item, status).status == status,
        with_status(item, status).id == item.id,
        with_status(item, status).name == item.name,
        with_status(item, status).title == item.title,
        with_status(item, status).dead_time == item.dead_time,
        with_status(item, status).duration == item.duration,
{
}

/// The instant that an item's deadline stands for: what its text reads
/// as (see `parse_datetime_from_str`), with `local_instant` the local time
/// zone's instant for a wall-clock reading and `now` the clock reading used
/// when the text cannot be read.
pub open spec fn item_target(item: Item, local_instant: Stamp, now: Stamp) -> Stamp {
    target_spec(deadline_of_text(item.dead_time@), local_instant, now)
}

/// The targets of the loaded items, one each.
pub open spec fn targets_of(loaded: Seq<Item>, local_instants: Seq<Stamp>, nows: Seq<Stamp>) -> Seq<Stamp> {
    Seq::new(loaded.len(), |i: int| item_target(loaded[i], local_instants[i], nows[i]))
}

/// The items `loaded`, each timed from `init_time` to its target.
pub open spec fn timed_items(
    loaded: Seq<Item>,
    targets: Seq<Stamp>,
    init_time: Stamp,
    items: Seq<Item>,
) -> bool {
    &&& items.len() == loaded.len()
    &&& forall|i: int|
        0 <= i < loaded.len() ==> elapsed_spec(targets[i], init_time) == Some(
            #[trigger] items[i].duration,
        ) && items[i] == with_duration(loaded[i], items[i].duration)
}

/// Every target can be timed from `init_time`.
pub open spec fn all_timeable(targets: Seq<Stamp>, init_time: Stamp) -> bool {
    forall|i: int| 0 <= i < targets.len() ==> (#[trigger] elapsed_spec(targets[i], init_time)) is Some
}

/// `index` is the first target that cannot be timed from `init_time`.
pub open spec fn first_untimeable(targets: Seq<Stamp>, init_time: Stamp, index: int) -> bool {
    &&& 0 <= index < targets.len()
    &&& elapsed_spec(targets[index], init_time) is None
    &&& forall|j: int| 0 <= j < index ==> (#[trigger] elapsed_spec(targets[j], init_time)) is Some
}

/// The targets are stamps that chrono can represent (see
/// `representable_stamp`).
pub open spec fn all_representable(targets: Seq<Stamp>) -> bool {
    forall|i: int| 0 <= i < targets.len() ==> representable_stamp(#[trigger] targets[i])
}

/// The targets are ordinary stamps (see `ordinary_stamp`).
pub open spec fn all_ordinary(targets: Seq<Stamp>) -> bool {
    forall|i: int| 0 <= i < targets.len() ==> ordinary_stamp(#[trigger] targets[i])
}

/// Each remaining time holds its whole seconds rounded toward zero, and
/// for ordinary targets and start it is the exact time between them.
pub open spec fn well_timed(items: Seq<Item>, targets: Seq<Stamp>, init_time: Stamp) -> bool {
    &&& forall|i: int|
        0 <= i < items.len() ==> (#[trigger] items[i].duration).seconds == truncated_seconds(
            items[i].duration@,
        )
    &&& ordinary_stamp(init_time) && all_ordinary(targets) ==> forall|i: int|
        0 <= i < items.len() ==> (#[trigger] items[i].duration)@ == nanos_between(
            targets[i],
            init_time,
        )
}

/// `s` is the board loaded at `init_time` with the items `loaded`, timed to
/// the targets that their deadline texts give.
pub open spec fn loaded_board(
    s: AppState,
    init_time: Stamp,
    loaded: Seq<Item>,
    local_instants: Seq<Stamp>,
    nows: Seq<Stamp>,
) -> bool {
    let targets = targets_of(loaded, local_instants, nows);
    &&& s.init_time == init_time
    &&& !s.dirty
    &&& timed_items(loaded, targets, init_time, s.items@)
}

/// A board loaded from the same items, start and readings is one board
/// only, whichever call loaded it.
pub proof fn lemma_loaded_board_unique(
    a: AppState,
    b: AppState,
    init_time: Stamp,
    loaded: Seq<Item>,
    local_instants: Seq<Stamp>,
    nows: Seq<Stamp>,
)
    requires
        loaded_board(a, init_time, loaded, local_instants, nows),
        loaded_board(b, init_time, loaded, local_instants, nows),
    ensures
        a.init_time == b.init_time,
        a.dirty == b.dirty,
        a.items@ == b.items@,
{
    let targets = targets_of(loaded, local_instants, nows);
    assert forall|i: int| 0 <= i < a.items@.len() implies a.items@[i] == b.items@[i] by {
        assert(elapsed_spec(targets[i], init_time) == Some(a.items@[i].duration));
        assert(elapsed_spec(targets[i], init_time) == Some(b.items@[i].duration));
    }
    assert(a.items@ =~= b.items@);
}

/// Times each loaded item from `init_time` to the instant its deadline text
/// stands for.
fn time_items(
    init_time: Stamp,
    loaded: Vec<Item>,
    local_instants: &Vec<Stamp>,
    nows: &Vec<Stamp>,
) -> (r: Result<Vec<Item>, SpanError>)
    requires
        loaded.len() == local_instants.len(),
        loaded.len() == nows.len(),
    ensures
        ({
            let targets = targets_of(loaded@, local_instants@, nows@);
            &&& r is Ok <==> all_timeable(targets, init_time)
            &&& r matches Ok(items) ==> timed_items(loaded@, targets, init_time, items@)
            &&& r matches Ok(items) ==> keeps_all_but_time(loaded@, items@)
                && well_timed(items@, targets, init_time)
            &&& r matches Err(e) ==> first_untimeable(targets, init_time, e.index as int)
                && !(representable_stamp(init_time) && representable_stamp(targets[e.index as int]))
            &&& representable_stamp(init_time) && all_representable(targets) ==> r is Ok
        }),
{
    let mut items = loaded;
    let n = items.len();
    let ghost original = items@;
    let ghost targets = targets_of(loaded@, local_instants@, nows@);
    let mut i: usize = 0;
    while i < n
        invariant
            n == items.len(),
            n == local_instants.len(),
            n == nows.len(),
            original.len() == n,
            targets == targets_of(original, local_instants@, nows@),
            original == loaded@,
            i <= n,
            forall|j: int|
                0 <= j < i ==> elapsed_spec(targets[j], init_time) == Some(
                    #[trigger] items@[j].duration,
                ) && items@[j] == with_duration(original[j], items@[j].duration),
            forall|j: int| i <= j < n ==> #[trigger] items@[j] == original[j],
            forall|j: int| 0 <= j < i ==> (#[trigger] elapsed_spec(targets[j], init_time)) is Some,
            forall|j: int|
                0 <= j < i ==> (#[trigger] items@[j].duration).seconds == truncated_seconds(
                    items@[j].duration@,
                ),
            ordinary_stamp(init_time) && all_ordinary(targets) ==> forall|j: int|
                0 <= j < i ==> (#[trigger] items@[j].duration)@ == nanos_between(
                    targets[j],
                    init_time,
                ),
        decreases n - i,
    {
        let deadline = parse_datetime_from_str(items[i].dead_time.as_str());
        let target = resolve_target(deadline, local_instants[i], nows[i]);
        assert(target == targets[i as int]);
        match elapsed(target, init_time) {
            Some(span) => {
                let mut item = items.remove(i);
                item.duration = span;
                items.insert(i, item);
            },
            None => {
                proof {
                    if representable_stamp(init_time) && all_representable(targets) {
                        assert(representable_stamp(targets[i as int]));
                    }
                }
                return Err(SpanError { index: i });
            },
        }
        i = i + 1;
    }
    assert forall|j: int| 0 <= j < n implies {
        &&& (#[trigger] items@[j]).id == original[j].id
        &&& items@[j].name == original[j].name
        &&& items@[j].title == original[j].title
        &&& items@[j].dead_time == original[j].dead_time
        &&& items@[j].status == original[j].status
    } by {
        assert(items@[j] == with_duration(original[j], items@[j].duration));
    }
    Ok(items)
}

/// `k` is the position of the first item with the given id.
pub open spec fn first_with_id(items: Seq<Item>, id: u32, k: int) -> bool {
    &&& 0 <= k < items.len()
    &&& items[k].id == id
    &&& forall|j: int| 0 <= j < k ==> (#[trigger] items[j]).id != id
}

/// The item found for an id has that id, and no earlier item has it; an
/// id present in the items has exactly one such position.
pub proof fn lemma_first_with_id(items: Seq<Item>, id: u32, k: int, k2: int)
    ensures
        first_with_id(items, id, k) ==> 0 <= k < items.len() && items[k].id == id && forall|j: int|
            0 <= j < k ==> (#[trigger] items[j]).id != id,
        first_with_id(items, id, k) && first_with_id(items, id, k2) ==> k == k2,
{
    if first_with_id(items, id, k) && first_with_id(items, id, k2) {
        if k < k2 {
            assert(items[k].id != id);
        } else if k2 < k {
            assert(items[k2].id != id);
        }
    }
}

/// Some item has the given id.
pub open spec fn has_id(items: Seq<Item>, id: u32) -> bool {
    exists|k: int| 0 <= k < items.len() && (#[trigger] items[k]).id == id
}

impl AppState {
    /// The board for the items `loaded`, loaded at `init_time`, each timed
    /// to the instant its deadline text stands for (see `item_target`):
    /// `local_instants[i]` is what the local time zone gives for a
    /// wall-clock deadline of `loaded[i]`, `nows[i]` a clock reading used
    /// when its text cannot be read.  Fails when chrono cannot time some
    /// target.
    pub fn new(
        init_time: Stamp,
        loaded: Vec<Item>,
        local_instants: Vec<Stamp>,
        nows: Vec<Stamp>,
    ) -> (r: Result<AppState, SpanError>)
        requires
            loaded.len() == local_instants.len(),
            loaded.len() == nows.len(),
        ensures
            ({
                let targets = targets_of(loaded@, local_instants@, nows@);
                &&& r is Ok <==> all_timeable(targets, init_time)
                &&& r matches Ok(s) ==> loaded_board(s, init_time, loaded@, local_instants@, nows@)
                &&& r matches Ok(s) ==> keeps_all_but_time(loaded@, s.items@)
                &&& r matches Ok(s) ==> (ordinary_stamp(init_time) && all_ordinary(targets) ==> forall|i: int|
                    0 <= i < s.items@.len() ==> (#[trigger] s.items@[i].duration)@ == (targets[i].secs
                        - init_time.secs) * 1_000_000_000 + targets[i].nanos - init_time.nanos)
                    && well_timed(s.items@, targets, init_time)
                &&& r matches Err(e) ==> first_untimeable(targets, init_time, e.index as int)
                    && !(representable_stamp(init_time) && representable_stamp(
                    targets[e.index as int],
                ))
                &&& representable_stamp(init_time) && all_representable(targets) ==> r is Ok
            }),
    {
        match time_items(init_time, loaded, &local_instants, &nows) {
            Ok(items) => Ok(AppState { init_time, items, dirty: false }),
            Err(e) => Err(e),
        }
    }

    /// Replaces the board with the one that `new` gives for the same
    /// arguments: the old items go, none are merged.  On failure nothing
    /// changes.
    pub fn refresh(
        &mut self,
        init_time: Stamp,
        loaded: Vec<Item>,
        local_instants: Vec<Stamp>,
        nows: Vec<Stamp>,
    ) -> (r: Result<(), SpanError>)
        requires
            loaded.len() == local_instants.len(),
            loaded.len() == nows.len(),
        ensures
            ({
                let targets = targets_of(loaded@, local_instants@, nows@);
                &&& r is Ok <==> all_timeable(targets, init_time)
                &&& r is Ok ==> loaded_board(*final(self), init_time, loaded@, local_instants@, nows@)
                &&& r is Ok ==> keeps_all_but_time(loaded@, final(self).items@)
                &&& r is Ok ==> (ordinary_stamp(init_time) && all_ordinary(targets) ==> forall|i: int|
                    0 <= i < final(self).items@.len() ==> (#[trigger] final(self).items@[i].duration)@
                        == (targets[i].secs - init_time.secs) * 1_000_000_000 + targets[i].nanos
                        - init_time.nanos)
                    && well_timed(final(self).items@, targets, init_time)
                &&& r matches Err(e) ==> first_untimeable(targets, init_time, e.index as int)
                    && !(representable_stamp(init_time) && representable_stamp(
                    targets[e.index as int],
                ))
                &&& r is Err ==> *final(self) == *old(self)
                &&& representable_stamp(init_time) && all_representable(targets) ==> r is Ok
            }),
    {
        match time_items(init_time, loaded, &local_instants, &nows) {
            Ok(items) => {
                self.init_time = init_time;
                self.items = items;
                self.dirty = false;
                Ok(())
            },
            Err(e) => Err(e),
        }
    }
}

/// Setting the same status twice changes nothing the second time: the
/// same item is found again and already has that status.
pub proof fn lemma_update_twice(items: Seq<Item>, id: u32, k: int, status: ItemStatus)
    requires
        first_with_id(items, id, k),
    ensures
        ({
            let once = items.update(k, with_status(items[k], status));
            &&& first_with_id(once, id, k)
            &&& once.update(k, with_status(once[k], status)) == once
        }),
{
    let once = items.update(k, with_status(items[k], status));
    assert forall|j: int| 0 <= j < k implies (#[trigger] once[j]).id != id by {
        assert(once[j] == items[j]);
    }
    assert(once.update(k, with_status(once[k], status)) =~= once);
}

impl AppState {
    /// Sets the status of the first item with the given id and marks the
    /// board changed; returns whether there was such an item (the board is
    /// then to be saved).  Without one nothing changes.
    pub fn update(&mut self, id: u32, new_status: ItemStatus) -> (found: bool)
        ensures
            found <==> has_id(old(self).items@, id),
            found ==> ({
                let before = old(self).items@;
                let after = final(self).items@;
                exists|k: int|
                    {
                        &&& first_with_id(before, id, k)
                        &&& after.len() == before.len()
                        &&& after[k].status == new_status
                        &&& after[k].id == id
                        &&& after[k].name == before[k].name
                        &&& after[k].title == before[k].title
                        &&& after[k].dead_time == before[k].dead_time
                        &&& after[k].duration == before[k].duration
                        &&& forall|j: int|
                            0 <= j < before.len() && j != k ==> #[trigger] after[j] == before[j]
                    }
            }),
            found ==> exists|k: int|
                first_with_id(old(self).items@, id, k) && final(self).items@ == old(
                    self,
                ).items@.update(k, with_status(old(self).items@[k], new_status)),
            found ==> final(self).dirty && final(self).init_time == old(self).init_time,
            !found ==> *final(self) == *old(self),
    {
        let n = self.items.len();
        let mut i: usize = 0;
        let ghost start = *self;
        while i < n
            invariant
                *self == start,
                start == *old(self),
                n == self.items.len(),
                i <= n,
                forall|j: int| 0 <= j < i ==> (#[trigger] self.items@[j]).id != id,
            decreases n - i,
        {
            if self.items[i].id == id {
                let ghost before = self.items@;
                let mut item = self.items.remove(i);
                item.status = new_status;
                self.items.insert(i, item);
                self.dirty = true;
                assert(first_with_id(before, id, i as int));
                assert(before[i as int].id == id);
                assert(self.items@ =~= before.update(i as int, with_status(before[i as int], new_status)));
                return true;
            }
            i = i + 1;
        }
        false
    }
}

} // verus!
