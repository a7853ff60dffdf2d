//! The record of lifecycle events that a host keeps in its contracts, and
//! the order that every such record obeys.

use vstd::prelude::*;

verus! {

/// One step in the life of a library image or of the instance built from it.
/// The number is the image's serial: images are numbered from 0 in the order
/// in which the host came to track them, and an instance bears the serial of
/// the image whose constructor made it.
pub enum Event {
    /// The load hook was fired on the instance.
    LoadHook(nat),
    /// The unload hook was fired on the instance.
    UnloadHook(nat),
    /// The instance was destroyed.
    Destroyed(nat),
    /// The image was closed.
    Closed(nat),
}

impl Event {
    /// The serial that the event speaks of.
    pub open spec fn serial(self) -> nat {
        match self {
            Event::LoadHook(s) => s,
            Event::UnloadHook(s) => s,
            Event::Destroyed(s) => s,
            Event::Closed(s) => s,
        }
    }
}

/// Once an image is closed, nothing more happens to it or to its instance.
pub open spec fn quiet_after_close(j: Seq<Event>) -> bool {
    forall|a: int, b: int|
        0 <= a < b < j.len() && (#[trigger] j[a]) is Closed ==> (#[trigger] j[b]).serial()
            != j[a].serial()
}

/// Once an instance is destroyed, no hook is fired on it and it is not
/// destroyed again.
pub open spec fn quiet_after_destroy(j: Seq<Event>) -> bool {
    forall|a: int, b: int|
        0 <= a < b < j.len() && (#[trigger] j[a]) is Destroyed && (#[trigger] j[b]).serial()
            == j[a].serial() ==> j[b] is Closed
}

/// An unload hook is fired only on an instance whose load hook was fired before.
pub open spec fn unload_follows_load(j: Seq<Event>) -> bool {
    forall|b: int|
        0 <= b < j.len() && (#[trigger] j[b]) is UnloadHook ==> exists|a: int|
            0 <= a < b && #[trigger] j[a] == Event::LoadHook(j[b].serial())
}

/// An image is closed only when the instance that was built from it, if
/// one was, has been destroyed.
pub open spec fn destroyed_before_close(j: Seq<Event>) -> bool {
    forall|c: int, l: int|
        0 <= c < j.len() && 0 <= l < j.len() && (#[trigger] j[c]) is Closed && #[trigger] j[l]
            == Event::LoadHook(j[c].serial()) ==> exists|d: int|
            0 <= d < c && #[trigger] j[d] == Event::Destroyed(j[c].serial())
}

/// The order that every record obeys.
#[verifier::opaque]
pub open spec fn ordered(j: Seq<Event>) -> bool {
    &&& quiet_after_close(j)
    &&& destroyed_before_close(j)
    &&& quiet_after_destroy(j)
    &&& unload_follows_load(j)
}

/// What a full drain adds to the record: the unload hook of every instance in
/// load order, then the destruction of every instance, and only then the
/// closing of every tracked image, `count` of them with serials from `first`.
pub open spec fn drain_trace(backing: Seq<nat>, first: nat, count: nat) -> Seq<Event> {
    Seq::new(backing.len(), |k: int| Event::UnloadHook(backing[k])) + Seq::new(
        backing.len(),
        |k: int| Event::Destroyed(backing[k]),
    ) + Seq::new(count, |k: int| Event::Closed((first + k) as nat))
}

/// What a record must tell of the instances in `backing` and of the `count`
/// images with serials from `first` for these to be drained: the images are
/// not closed and none comes after them, each instance is backed by one of
/// them, had its load hook fired and nothing else, load order holds, and
/// an instance of one of these images that is not in `backing` is destroyed.
#[verifier::opaque]
pub open spec fn ready_to_drain(j: Seq<Event>, backing: Seq<nat>, first: nat, count: nat) -> bool {
    &&& forall|k: int| 0 <= k < j.len() ==> (#[trigger] j[k]).serial() < first + count
    &&& forall|k: int| 0 <= k < j.len() && (#[trigger] j[k]) is Closed ==> j[k].serial() < first
    &&& forall|i: int| 0 <= i < backing.len() ==> first <= #[trigger] backing[i] < first + count
    &&& forall|i: int, k: int|
        0 <= i < k < backing.len() ==> #[trigger] backing[i] < #[trigger] backing[k]
    &&& forall|i: int|
        0 <= i < backing.len() ==> j.contains(Event::LoadHook(#[trigger] backing[i]))
    &&& forall|i: int, k: int|
        0 <= i < backing.len() && 0 <= k < j.len() && (#[trigger] j[k]).serial()
            == #[trigger] backing[i] ==> j[k] is LoadHook
    &&& forall|k: int|
        0 <= k < j.len() && (#[trigger] j[k]) is LoadHook && j[k].serial() >= first
            ==> backing.contains(j[k].serial()) || j.contains(Event::Destroyed(j[k].serial()))
}

/// A record in order stays so when an event is added that concerns an image
/// that was not closed and an instance that was not destroyed, unless that
/// event is an unload hook with no load hook before it.
pub proof fn lemma_push_keeps_order(j: Seq<Event>, e: Event)
    requires
        ordered(j),
        forall|k: int| 0 <= k < j.len() && (#[trigger] j[k]) is Closed ==> j[k].serial() != e.serial(),
        forall|k: int|
            0 <= k < j.len() && (#[trigger] j[k]) is Destroyed && j[k].serial() == e.serial()
                ==> e is Closed,
        e is UnloadHook ==> j.contains(Event::LoadHook(e.serial())),
        e is Closed && j.contains(Event::LoadHook(e.serial())) ==> j.contains(
            Event::Destroyed(e.serial()),
        ),
    ensures
        ordered(j.push(e)),
{
    reveal(ordered);
    reveal(ready_to_drain);
    let d = j.push(e);
    assert forall|c: int, l: int|
        0 <= c < d.len() && 0 <= l < d.len() && (#[trigger] d[c]) is Closed && #[trigger] d[l]
            == Event::LoadHook(d[c].serial()) implies exists|x: int|
        0 <= x < c && #[trigger] d[x] == Event::Destroyed(d[c].serial()) by {
        if c < j.len() {
            assert(d[c] == j[c]);
            assert(l < j.len());
            assert(d[l] == j[l]);
            let x = choose|x: int| 0 <= x < c && #[trigger] j[x] == Event::Destroyed(j[c].serial());
            assert(d[x] == Event::Destroyed(d[c].serial()));
        } else {
            assert(l < j.len());
            assert(j[l] == Event::LoadHook(e.serial()));
            let x = choose|x: int| 0 <= x < j.len() && j[x] == Event::Destroyed(e.serial());
            assert(d[x] == Event::Destroyed(d[c].serial()));
        }
    }
    assert forall|b: int| 0 <= b < d.len() && (#[trigger] d[b]) is UnloadHook implies exists|
        a: int,
    |
        0 <= a < b && #[trigger] d[a] == Event::LoadHook(d[b].serial()) by {
        if b < j.len() {
            let a = choose|a: int| 0 <= a < b && #[trigger] j[a] == Event::LoadHook(j[b].serial());
            assert(d[a] == Event::LoadHook(d[b].serial()));
        } else {
            let a = choose|a: int| 0 <= a < j.len() && j[a] == Event::LoadHook(e.serial());
            assert(d[a] == Event::LoadHook(d[b].serial()));
        }
    }
    assert(quiet_after_close(d));
    assert(quiet_after_destroy(d));
}

/// The empty record is in order, and ready for a drain of nothing.
pub proof fn lemma_empty_record(first: nat)
    ensures
        ordered(Seq::empty()),
        ready_to_drain(Seq::empty(), Seq::empty(), first, 0),
{
    reveal(ordered);
    reveal(ready_to_drain);
}

/// A record that is ready stays so when one more image is tracked.
pub proof fn lemma_image_tracked(j: Seq<Event>, backing: Seq<nat>, first: nat, count: nat)
    requires
        ready_to_drain(j, backing, first, count),
    ensures
        ready_to_drain(j, backing, first, count + 1),
{
    reveal(ready_to_drain);
}

/// Tracking one more image, firing the load hook of its instance and
/// registering the instance keeps the record in order and ready.
pub proof fn lemma_load_registered(j: Seq<Event>, backing: Seq<nat>, first: nat, count: nat)
    requires
        ordered(j),
        ready_to_drain(j, backing, first, count),
    ensures
        ordered(j.push(Event::LoadHook(first + count))),
        ready_to_drain(
            j.push(Event::LoadHook(first + count)),
            backing.push(first + count),
            first,
            count + 1,
        ),
{
    reveal(ordered);
    reveal(ready_to_drain);
    let s = first + count;
    let e = Event::LoadHook(s);
    let d = j.push(e);
    lemma_push_keeps_order(j, e);
    let grown = backing.push(s);
    assert forall|i: int| 0 <= i < grown.len() implies d.contains(
        Event::LoadHook(#[trigger] grown[i]),
    ) by {
        if i < backing.len() {
            assert(j.contains(Event::LoadHook(backing[i])));
            let k = choose|k: int| 0 <= k < j.len() && j[k] == Event::LoadHook(backing[i]);
            assert(d[k] == Event::LoadHook(grown[i]));
        } else {
            assert(d[j.len() as int] == Event::LoadHook(grown[i]));
        }
    }
    assert forall|k: int|
        0 <= k < d.len() && (#[trigger] d[k]) is LoadHook && d[k].serial() >= first implies (
    grown.contains(d[k].serial()) || d.contains(Event::Destroyed(d[k].serial()))) by {
        if k < j.len() {
            assert(d[k] == j[k]);
            if backing.contains(j[k].serial()) {
                let i = choose|i: int| 0 <= i < backing.len() && backing[i] == j[k].serial();
                assert(grown[i] == d[k].serial());
            } else {
                let x = choose|x: int|
                    0 <= x < j.len() && j[x] == Event::Destroyed(j[k].serial());
                assert(d[x] == Event::Destroyed(d[k].serial()));
            }
        } else {
            assert(grown[backing.len() as int] == d[k].serial());
        }
    }
}

/// Tracking one more image, firing the load hook of its instance and
/// destroying the instance at once keeps the record in order and ready.
pub proof fn lemma_load_rejected(j: Seq<Event>, backing: Seq<nat>, first: nat, count: nat)
    requires
        ordered(j),
        ready_to_drain(j, backing, first, count),
    ensures
        ordered(j.push(Event::LoadHook(first + count)).push(Event::Destroyed(first + count))),
        ready_to_drain(
            j.push(Event::LoadHook(first + count)).push(Event::Destroyed(first + count)),
            backing,
            first,
            count + 1,
        ),
{
    reveal(ordered);
    reveal(ready_to_drain);
    let s = first + count;
    let m = j.push(Event::LoadHook(s));
    let d = m.push(Event::Destroyed(s));
    lemma_push_keeps_order(j, Event::LoadHook(s));
    lemma_push_keeps_order(m, Event::Destroyed(s));
    assert forall|i: int| 0 <= i < backing.len() implies d.contains(
        Event::LoadHook(#[trigger] backing[i]),
    ) by {
        assert(j.contains(Event::LoadHook(backing[i])));
        let k = choose|k: int| 0 <= k < j.len() && j[k] == Event::LoadHook(backing[i]);
        assert(d[k] == Event::LoadHook(backing[i]));
    }
    assert forall|k: int|
        0 <= k < d.len() && (#[trigger] d[k]) is LoadHook && d[k].serial() >= first implies (
    backing.contains(d[k].serial()) || d.contains(Event::Destroyed(d[k].serial()))) by {
        if k < j.len() {
            assert(d[k] == j[k]);
            if !backing.contains(j[k].serial()) {
                let x = choose|x: int|
                    0 <= x < j.len() && j[x] == Event::Destroyed(j[k].serial());
                assert(d[x] == Event::Destroyed(d[k].serial()));
            }
        } else {
            assert(d[j.len() as int + 1] == Event::Destroyed(s));
        }
    }
}

/// What stands at each place of a record that a drain has extended.
pub proof fn lemma_drain_places(j: Seq<Event>, backing: Seq<nat>, first: nat, count: nat)
    ensures
        (j + drain_trace(backing, first, count)).len() == j.len() + 2 * backing.len() + count,
        forall|x: int|
            0 <= x < j.len() ==> #[trigger] (j + drain_trace(backing, first, count))[x] == j[x],
        forall|x: int|
            j.len() <= x < j.len() + backing.len() ==> #[trigger] (j + drain_trace(
                backing,
                first,
                count,
            ))[x] == Event::UnloadHook(backing[x - j.len()]),
        forall|x: int|
            j.len() + backing.len() <= x < j.len() + 2 * backing.len() ==> #[trigger] (j
                + drain_trace(backing, first, count))[x] == Event::Destroyed(
                backing[x - j.len() - backing.len()],
            ),
        forall|x: int|
            j.len() + 2 * backing.len() <= x < j.len() + 2 * backing.len() + count
                ==> #[trigger] (j + drain_trace(backing, first, count))[x] == Event::Closed(
                (first + x - j.len() - 2 * backing.len()) as nat,
            ),
{
}

/// A drain keeps the record in order, and leaves it telling of no image but
/// closed ones.
pub proof fn lemma_drain_keeps_order(j: Seq<Event>, backing: Seq<nat>, first: nat, count: nat)
    requires
        ordered(j),
        ready_to_drain(j, backing, first, count),
    ensures
        ordered(j + drain_trace(backing, first, count)),
        ready_to_drain(j + drain_trace(backing, first, count), Seq::empty(), first + count, 0),
{
    reveal(ordered);
    reveal(ready_to_drain);
    let d = j + drain_trace(backing, first, count);
    lemma_drain_places(j, backing, first, count);
    assert forall|b: int| 0 <= b < d.len() && (#[trigger] d[b]) is UnloadHook implies exists|
        a: int,
    |
        0 <= a < b && #[trigger] d[a] == Event::LoadHook(d[b].serial()) by {
        if b < j.len() {
            let a = choose|a: int| 0 <= a < b && #[trigger] j[a] == Event::LoadHook(j[b].serial());
            assert(d[a] == Event::LoadHook(d[b].serial()));
        } else {
            let i = b - j.len();
            assert(j.contains(Event::LoadHook(backing[i])));
            let a = choose|a: int| 0 <= a < j.len() && j[a] == Event::LoadHook(backing[i]);
            assert(d[a] == Event::LoadHook(d[b].serial()));
        }
    }
    assert forall|c: int, l: int|
        0 <= c < d.len() && 0 <= l < d.len() && (#[trigger] d[c]) is Closed && #[trigger] d[l]
            == Event::LoadHook(d[c].serial()) implies exists|x: int|
        0 <= x < c && #[trigger] d[x] == Event::Destroyed(d[c].serial()) by {
        assert(l < j.len());
        if c < j.len() {
            let x = choose|x: int| 0 <= x < c && #[trigger] j[x] == Event::Destroyed(j[c].serial());
            assert(d[x] == Event::Destroyed(d[c].serial()));
        } else {
            let s = d[c].serial();
            assert(j[l] is LoadHook && j[l].serial() == s);
            if backing.contains(s) {
                let i = choose|i: int| 0 <= i < backing.len() && backing[i] == s;
                let x = j.len() + backing.len() + i;
                assert(d[x] == Event::Destroyed(s));
            } else {
                let x = choose|x: int| 0 <= x < j.len() && j[x] == Event::Destroyed(s);
                assert(d[x] == Event::Destroyed(s));
            }
        }
    }
    assert(quiet_after_close(d));
    assert(quiet_after_destroy(d));
}

/// The index of the first of `names` from `from` on that equals `name`, or the
/// length of `names` where there is none.
pub open spec fn scan(names: Seq<Seq<char>>, name: Seq<char>, from: int) -> int
    decreases names.len() - from,
{
    if from < 0 || from >= names.len() {
        names.len() as int
    } else if names[from] == name {
        from
    } else {
        scan(names, name, from + 1)
    }
}

/// The index of the first of `names` that equals `name`, if there is one.
pub open spec fn first_match(names: Seq<Seq<char>>, name: Seq<char>) -> Option<int> {
    if scan(names, name, 0) < names.len() {
        Some(scan(names, name, 0))
    } else {
        None
    }
}

} // verus!
