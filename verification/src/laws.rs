//! What holds of every manager, whatever was loaded into it and however
//! often it was drained.

use vstd::prelude::*;
use crate::journal::Event;
use crate::journal::first_match;
use crate::journal::lemma_drain_keeps_order;
use crate::journal::lemma_drain_places;
use crate::journal::lemma_image_tracked;
use crate::journal::lemma_load_registered;
use crate::journal::lemma_load_rejected;
use crate::journal::lemma_empty_record;
use crate::journal::ordered;
use crate::journal::ready_to_drain;
use crate::journal::scan;
use crate::manager::Snapshot;
use crate::plugin::Plugin;
use libloading::Library;

verus! {

/// One change that a manager goes through.
pub enum Step<P> {
    /// A load that opened an image and found no constructor in it.
    Image(Library),
    /// A load that registered the instance built from the image.
    Plugin(Library, P),
    /// A load whose instance failed in its load hook.
    Rejected(Library),
    /// A drain.
    Drain,
}

/// The manager after one change.
pub open spec fn apply<P: Plugin>(s: Snapshot<P>, step: Step<P>) -> Snapshot<P> {
    match step {
        Step::Image(lib) => s.with_image(lib),
        Step::Plugin(lib, instance) => s.with_plugin(lib, instance),
        Step::Rejected(lib) => s.with_rejected(lib),
        Step::Drain => s.drained(),
    }
}

/// The manager after all of `steps`, starting from a new one.
pub open spec fn run<P: Plugin>(steps: Seq<Step<P>>) -> Snapshot<P>
    decreases steps.len(),
{
    if steps.len() == 0 {
        Snapshot::fresh()
    } else {
        apply(run(steps.drop_last()), steps.last())
    }
}

/// Every change keeps a valid manager valid.
pub proof fn law_step_keeps_valid<P: Plugin>(s: Snapshot<P>, step: Step<P>)
    requires
        s.valid(),
    ensures
        apply(s, step).valid(),
{
    match step {
        Step::Image(lib) => {
            lemma_image_tracked(s.journal, s.backing, s.retired, s.handles.len());
        },
        Step::Plugin(lib, instance) => {
            lemma_load_registered(s.journal, s.backing, s.retired, s.handles.len());
        },
        Step::Rejected(lib) => {
            lemma_load_rejected(s.journal, s.backing, s.retired, s.handles.len());
        },
        Step::Drain => {
            lemma_drain_keeps_order(s.journal, s.backing, s.retired, s.handles.len());
        },
    }
}

/// Whatever was loaded and however often the manager was drained, in
/// whatever order, the manager is valid: its record obeys the order of the
/// laws below.
pub proof fn law_every_run_is_valid<P: Plugin>(steps: Seq<Step<P>>)
    ensures
        run(steps).valid(),
    decreases steps.len(),
{
    if steps.len() == 0 {
        lemma_empty_record(0);
    } else {
        law_every_run_is_valid(steps.drop_last());
        law_step_keeps_valid(run(steps.drop_last()), steps.last());
    }
}

/// Once an image is closed, no hook is fired on the instance it backed and
/// the instance is not destroyed: whatever the record tells of the image
/// stands before its closing.
pub proof fn law_nothing_runs_after_close<P: Plugin>(s: Snapshot<P>, a: int, b: int)
    requires
        s.valid(),
        0 <= a < b < s.journal.len(),
        s.journal[a] is Closed,
    ensures
        s.journal[b].serial() != s.journal[a].serial(),
{
    reveal(ordered);
    reveal(ready_to_drain);
}

/// An image outlives its instance: where the record tells that an image was
/// closed and that the load hook of its instance was fired, it tells before
/// the closing that the instance was destroyed.
pub proof fn law_image_outlives_instance<P: Plugin>(s: Snapshot<P>, c: int, l: int)
    requires
        s.valid(),
        0 <= c < s.journal.len(),
        0 <= l < s.journal.len(),
        s.journal[c] is Closed,
        s.journal[l] == Event::LoadHook(s.journal[c].serial()),
    ensures
        l < c,
        exists|d: int| 0 <= d < c && #[trigger] s.journal[d] == Event::Destroyed(s.journal[c].serial()),
{
    reveal(ordered);
    reveal(ready_to_drain);
}

/// After a drain no name is found: there is no instance left to call.
pub proof fn law_no_lookup_after_drain<P: Plugin>(s: Snapshot<P>, name: Seq<char>)
    ensures
        first_match(s.drained().names(), name) is None,
{
}

/// A drain leaves a valid manager with nothing registered and nothing
/// tracked, and a second drain changes nothing, the record included.
pub proof fn law_drain_is_total_and_idempotent<P: Plugin>(s: Snapshot<P>)
    requires
        s.valid(),
    ensures
        s.drained().valid(),
        s.drained().instances.len() == 0,
        s.drained().handles.len() == 0,
        s.drained().drained() == s.drained(),
{
    reveal(ordered);
    reveal(ready_to_drain);
    lemma_drain_keeps_order(s.journal, s.backing, s.retired, s.handles.len());
    assert(s.drained().drained().journal =~= s.drained().journal);
}

/// The hooks of one instance come in order: where the record tells of an
/// unload hook, the load hook of the same instance stands before it, and
/// the closing of its image, if the record tells of it, stands after it.
pub proof fn law_hook_order<P: Plugin>(s: Snapshot<P>, u: int)
    requires
        s.valid(),
        0 <= u < s.journal.len(),
        s.journal[u] is UnloadHook,
    ensures
        exists|l: int| 0 <= l < u && #[trigger] s.journal[l] == Event::LoadHook(s.journal[u].serial()),
        forall|c: int|
            0 <= c < s.journal.len() && #[trigger] s.journal[c] == Event::Closed(
                s.journal[u].serial(),
            ) ==> u < c,
{
    reveal(ordered);
    reveal(ready_to_drain);
}

/// An instance that a lookup can return had its load hook fired, and
/// neither was its unload hook fired, nor was it destroyed, nor was its
/// image closed. So the host calls its operation between the two hooks, on
/// an image that is open.
pub proof fn law_registered_is_loaded_and_backed<P: Plugin>(s: Snapshot<P>, i: int, k: int)
    requires
        s.valid(),
        0 <= i < s.instances.len(),
        0 <= k < s.journal.len(),
    ensures
        s.retired <= s.backing[i] < s.next_serial(),
        s.journal.contains(Event::LoadHook(s.backing[i])),
        s.journal[k].serial() == s.backing[i] ==> s.journal[k] is LoadHook,
{
    reveal(ordered);
    reveal(ready_to_drain);
}

/// A drain fires every unload hook and destroys every instance before it
/// closes the first image.
pub proof fn law_drain_closes_last<P: Plugin>(s: Snapshot<P>, x: int, y: int)
    requires
        s.valid(),
        s.journal.len() <= x < s.drained().journal.len(),
        s.journal.len() <= y < s.drained().journal.len(),
        s.drained().journal[x] is Closed,
        !(s.drained().journal[y] is Closed),
    ensures
        y < x,
{
    reveal(ordered);
    reveal(ready_to_drain);
    lemma_drain_places(s.journal, s.backing, s.retired, s.handles.len());
}

/// What a lookup finds depends on the registered instances alone: a load
/// that registers nothing leaves every lookup as it was.
pub proof fn law_lookup_reads_instances<P: Plugin>(s: Snapshot<P>, t: Snapshot<P>, name: Seq<char>)
    requires
        s.instances == t.instances,
    ensures
        first_match(s.names(), name) == first_match(t.names(), name),
{
}

/// What a scan returns: a place from `from` on that holds the name and has
/// no other such place between `from` and itself, or the length where no place
/// from `from` on holds the name.
pub proof fn lemma_scan_finds_first(names: Seq<Seq<char>>, name: Seq<char>, from: int)
    requires
        0 <= from <= names.len(),
    ensures
        from <= scan(names, name, from) <= names.len(),
        scan(names, name, from) < names.len() ==> names[scan(names, name, from)] == name,
        forall|k: int| from <= k < scan(names, name, from) ==> #[trigger] names[k] != name,
    decreases names.len() - from,
{
    if from < names.len() && names[from] != name {
        lemma_scan_finds_first(names, name, from + 1);
    }
}

/// A lookup finds a name exactly where some registered plugin bears it, and
/// then the first such in load order.
pub proof fn law_lookup_is_first_match(names: Seq<Seq<char>>, name: Seq<char>)
    ensures
        first_match(names, name) is Some <==> names.contains(name),
        first_match(names, name) matches Some(i) ==> 0 <= i < names.len() && names[i] == name
            && forall|k: int| 0 <= k < i ==> #[trigger] names[k] != name,
{
    lemma_scan_finds_first(names, name, 0);
    if names.contains(name) {
        let k = choose|k: int| 0 <= k < names.len() && names[k] == name;
        assert(names[k] == name);
    }
}

/// A scan from `from` on finds the same place after a name was appended,
/// where it found one before.
pub proof fn lemma_scan_push(names: Seq<Seq<char>>, x: Seq<char>, name: Seq<char>, from: int)
    requires
        0 <= from,
        scan(names, name, from) < names.len(),
    ensures
        scan(names.push(x), name, from) == scan(names, name, from),
    decreases names.len() - from,
{
    if from < names.len() {
        assert(names.push(x)[from] == names[from]);
        if names[from] != name {
            lemma_scan_push(names, x, name, from + 1);
        }
    }
}

/// A scan from `from` on that finds nothing finds the appended name at the end.
pub proof fn lemma_scan_push_new(names: Seq<Seq<char>>, name: Seq<char>, from: int)
    requires
        0 <= from <= names.len(),
        scan(names, name, from) == names.len(),
    ensures
        scan(names.push(name), name, from) == names.len(),
    decreases names.len() - from,
{
    if from < names.len() {
        assert(names.push(name)[from] == names[from]);
        lemma_scan_push_new(names, name, from + 1);
    }
}

/// Lookup is by first match: a plugin registered later under a name that is
/// already taken does not change what the name finds.
pub proof fn law_first_registered_wins(names: Seq<Seq<char>>, x: Seq<char>, name: Seq<char>)
    requires
        first_match(names, name) is Some,
    ensures
        first_match(names.push(x), name) == first_match(names, name),
{
    lemma_scan_push(names, x, name, 0);
}

/// A plugin registered under a name that was not taken is found under it,
/// at the end of the load order.
pub proof fn law_registered_is_found(names: Seq<Seq<char>>, name: Seq<char>)
    requires
        first_match(names, name) is None,
    ensures
        first_match(names.push(name), name) == Some(names.len() as int),
{
    lemma_scan_finds_first(names, name, 0);
    lemma_scan_push_new(names, name, 0);
}

} // verus!
