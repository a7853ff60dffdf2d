//! The plugin manager: the registered instances, the library images that
//! back them, and the order in which both are let go.

use vstd::prelude::*;
use vstd::string::StringExecFns;
use crate::journal::Event;
use crate::journal::ordered;
use crate::journal::drain_trace;
use crate::journal::lemma_drain_keeps_order;
use crate::journal::lemma_empty_record;
use crate::journal::lemma_image_tracked;
use crate::journal::lemma_load_registered;
use crate::journal::lemma_load_rejected;
use crate::journal::ready_to_drain;
use crate::journal::first_match;
use crate::journal::scan;
use crate::plugin::HookFailure;
use crate::plugin::Plugin;
use libloading::Library;

verus! {

/// A mapped library image, as `libloading` hands it out. Nothing is known of
/// what is inside.
#[verifier::external_type_specification]
#[verifier::external_body]
pub struct ExLibrary(libloading::Library);

/// The error of a failed `libloading` call. Nothing is known of what is inside.
#[verifier::external_type_specification]
#[verifier::external_body]
pub struct ExLibraryError(libloading::Error);

/// What came of the attempt to open a library and to build its plugin.
pub enum LoadAttempt<P> {
    /// The image could not be opened.
    OpenFailed(libloading::Error),
    /// The image was opened and does not export the constructor.
    SymbolNotFound(Library, libloading::Error),
    /// The image was opened and its constructor returned this instance.
    Constructed(Library, P),
}

/// Why a load did not register a plugin.
#[derive(Debug)]
pub enum LoadError {
    /// The image is missing or cannot be loaded.
    OpenFailed(libloading::Error),
    /// The image lacks the constructor export.
    SymbolNotFound(libloading::Error),
    /// The load hook of the new instance reported a failure.
    HookFailure(HookFailure),
}

/// Why a lookup returned no plugin.
#[derive(Debug, Clone, Copy, PartialEq, Eq, Structural)]
pub enum LookupError {
    /// No registered plugin has the name that was asked for.
    NotFound,
}

/// What a manager holds, as contracts see it.
pub struct Snapshot<P> {
    /// The registered instances, in load order.
    pub instances: Seq<P>,
    /// The tracked images, in load order.
    pub handles: Seq<Library>,
    /// For each registered instance, the serial of the image that backs it.
    pub backing: Seq<nat>,
    /// How many images were closed so far: the serial of the first tracked one.
    pub retired: nat,
    /// Every lifecycle event so far, oldest first.
    pub journal: Seq<Event>,
}

impl<P: Plugin> Snapshot<P> {
    /// The names of the registered instances, in load order.
    pub open spec fn names(self) -> Seq<Seq<char>> {
        Seq::new(self.instances.len(), |i: int| self.instances[i].label())
    }

    /// The serial that the next tracked image gets.
    pub open spec fn next_serial(self) -> nat {
        self.retired + self.handles.len()
    }

    /// A manager that holds nothing and has seen nothing.
    pub open spec fn fresh() -> Snapshot<P> {
        Snapshot {
            instances: Seq::empty(),
            handles: Seq::empty(),
            backing: Seq::empty(),
            retired: 0,
            journal: Seq::empty(),
        }
    }

    /// The manager after it came to track an image that gave no instance.
    pub open spec fn with_image(self, lib: Library) -> Snapshot<P> {
        Snapshot { handles: self.handles.push(lib), ..self }
    }

    /// The manager after it came to track an image and registered the
    /// instance built from it, on which the load hook was fired.
    pub open spec fn with_plugin(self, lib: Library, instance: P) -> Snapshot<P> {
        Snapshot {
            instances: self.instances.push(instance),
            handles: self.handles.push(lib),
            backing: self.backing.push(self.next_serial()),
            retired: self.retired,
            journal: self.journal.push(Event::LoadHook(self.next_serial())),
        }
    }

    /// The manager after it came to track an image whose instance was
    /// destroyed at once, because its load hook failed.
    pub open spec fn with_rejected(self, lib: Library) -> Snapshot<P> {
        Snapshot {
            handles: self.handles.push(lib),
            journal: self.journal.push(Event::LoadHook(self.next_serial())).push(
                Event::Destroyed(self.next_serial()),
            ),
            ..self
        }
    }

    /// The manager after a full drain: nothing registered, nothing tracked,
    /// and the record longer by the trace of the drain.
    pub open spec fn drained(self) -> Snapshot<P> {
        Snapshot {
            instances: Seq::empty(),
            handles: Seq::empty(),
            backing: Seq::empty(),
            retired: self.next_serial(),
            journal: self.journal + drain_trace(self.backing, self.retired, self.handles.len()),
        }
    }

    /// The invariant of a manager: every registered instance has its
    /// serial, the record is in order, and it tells of the registered
    /// instances and the tracked images what a drain relies on.
    pub open spec fn valid(self) -> bool {
        &&& self.backing.len() == self.instances.len()
        &&& ordered(self.journal)
        &&& ready_to_drain(self.journal, self.backing, self.retired, self.handles.len())
    }
}

/// A registered instance and, for the contracts, the serial of its image.
struct Slot<P> {
    object: P,
    serial: Ghost<nat>,
}

/// Owns the plugin instances and the library images behind them. The
/// instances stand first among the fields, so that they are gone before the
/// images even where a manager is dropped without a drain.
pub struct PluginManager<P: Plugin> {
    plugins: Vec<Slot<P>>,
    loaded_libraries: Vec<Library>,
    retired: Ghost<nat>,
    journal: Ghost<Seq<Event>>,
}

impl<P: Plugin> View for PluginManager<P> {
    type V = Snapshot<P>;

    closed spec fn view(&self) -> Snapshot<P> {
        Snapshot {
            instances: Seq::new(self.plugins@.len(), |i: int| self.plugins@[i].object),
            handles: self.loaded_libraries@,
            backing: Seq::new(self.plugins@.len(), |i: int| self.plugins@[i].serial@),
            retired: self.retired@,
            journal: self.journal@,
        }
    }
}

/// Compares two strings with `str`'s `==`: true exactly when they hold the
/// same characters.
#[verifier::external_body]
fn same_text(a: &str, b: &str) -> (same: bool)
    ensures
        same == (a@ == b@),
{
    a == b
}

/// Closes an image with `Library::close`, which consumes it. Whether the
/// system reported success is handed back; nothing is claimed of it.
#[verifier::external_body]
fn close_library(lib: Library) -> (r: Result<(), libloading::Error>) {
    lib.close()
}

/// The text that the `Debug` of a `Vec<&str>` gives for a list of strings.
pub uninterp spec fn debug_list(names: Seq<Seq<char>>) -> Seq<char>;

/// Formats a list of names with the `Debug` of `Vec<&str>`: the result is
/// that text, a function of the names' characters alone.
#[verifier::external_body]
fn format_names(names: &Vec<&'static str>) -> (text: String)
    ensures
        text@ == debug_list(Seq::new(names@.len(), |i: int| names@[i]@)),
{
    format!("{:?}", names)
}

impl<P: Plugin> PluginManager<P> {
    /// A manager that holds nothing and has seen nothing.
    pub fn new() -> (m: PluginManager<P>)
        ensures
            m@ == Snapshot::<P>::fresh(),
            m@.valid(),
    {
        let m = PluginManager {
            plugins: Vec::new(),
            loaded_libraries: Vec::new(),
            retired: Ghost(0),
            journal: Ghost(Seq::empty()),
        };
        proof {
            lemma_empty_record(0);
            assert(m@.backing =~= Seq::empty());
            assert(m@.instances =~= Seq::empty());
        }
        m
    }

    /// Takes in what came of one attempt to load a library. An image that was
    /// opened is tracked from here on, whatever else went wrong. An instance
    /// is registered once its load hook has succeeded; where the hook fails
    /// the instance is destroyed at once, while its image is still open, and
    /// the plugins registered before are untouched. Names need not be unique:
    /// a second plugin of one name is registered and never found by `get`.
    pub fn load_plugin(&mut self, attempt: LoadAttempt<P>) -> (r: Result<(), LoadError>)
        ensures
            old(self)@.valid() ==> final(self)@.valid(),
            match attempt {
                LoadAttempt::OpenFailed(cause) => {
                    &&& r == Err::<(), LoadError>(LoadError::OpenFailed(cause))
                    &&& final(self)@ == old(self)@
                },
                LoadAttempt::SymbolNotFound(lib, cause) => {
                    &&& r == Err::<(), LoadError>(LoadError::SymbolNotFound(cause))
                    &&& final(self)@ == old(self)@.with_image(lib)
                },
                LoadAttempt::Constructed(lib, plugin) => if plugin.load_succeeds() {
                    &&& r is Ok
                    &&& final(self)@ == old(self)@.with_plugin(lib, final(self)@.instances.last())
                    &&& final(self)@.instances.last().label() == plugin.label()
                    &&& final(self)@.names() == old(self)@.names().push(plugin.label())
                } else {
                    &&& r == Err::<(), LoadError>(LoadError::HookFailure(HookFailure))
                    &&& final(self)@ == old(self)@.with_rejected(lib)
                },
            },
    {
        match attempt {
            LoadAttempt::OpenFailed(cause) => Err(LoadError::OpenFailed(cause)),
            LoadAttempt::SymbolNotFound(lib, cause) => {
                let ghost before = self@;
                self.loaded_libraries.push(lib);
                proof {
                    assert(self@.instances =~= before.instances);
                    assert(self@.backing =~= before.backing);
                    if before.valid() {
                        lemma_image_tracked(
                            before.journal,
                            before.backing,
                            before.retired,
                            before.handles.len(),
                        );
                    }
                }
                Err(LoadError::SymbolNotFound(cause))
            },
            LoadAttempt::Constructed(lib, plugin) => {
                let ghost serial = self@.next_serial();
                let ghost before = self@;
                self.loaded_libraries.push(lib);
                let mut plugin = plugin;
                let hook = plugin.on_plugin_load();
                match hook {
                    Ok(()) => {
                        self.plugins.push(Slot { object: plugin, serial: Ghost(serial) });
                        proof {
                            self.journal@ = self.journal@.push(Event::LoadHook(serial));
                            assert(self@.instances =~= before.instances.push(
                                self@.instances.last(),
                            ));
                            assert(self@.backing =~= before.backing.push(serial));
                            assert(self@.names() =~= before.names().push(self@.instances.last().label()));
                            if before.valid() {
                                lemma_load_registered(
                                    before.journal,
                                    before.backing,
                                    before.retired,
                                    before.handles.len(),
                                );
                            }
                        }
                        Ok(())
                    },
                    Err(failure) => {
                        proof {
                            self.journal@ = self.journal@.push(Event::LoadHook(serial)).push(
                                Event::Destroyed(serial),
                            );
                            assert(self@.instances =~= before.instances);
                            assert(self@.backing =~= before.backing);
                            if before.valid() {
                                lemma_load_rejected(
                                    before.journal,
                                    before.backing,
                                    before.retired,
                                    before.handles.len(),
                                );
                            }
                        }
                        Err(LoadError::HookFailure(failure))
                    },
                }
            },
        }
    }

    /// Unload all plugins and loaded plugin libraries, making sure to fire
    /// their `on_plugin_unload()` methods so they can do any necessary cleanup.
    /// Every hook is fired and every instance destroyed before the first image
    /// is closed.
    pub fn unload(&mut self)
        ensures
            final(self)@ == old(self)@.drained(),
            old(self)@.valid() ==> final(self)@.valid(),
    {
        let ghost before = self@;
        let mut i: usize = 0;
        while i < self.plugins.len()
            invariant
                i <= self.plugins@.len(),
                self@.instances == before.instances,
                self@.backing == before.backing,
                before.backing.len() == self.plugins@.len(),
                self.loaded_libraries@ == before.handles,
                self.retired@ == before.retired,
                self.journal@ == before.journal + Seq::new(
                    i as nat,
                    |k: int| Event::UnloadHook(before.backing[k]),
                ),
            decreases self.plugins@.len() - i,
        {
            self.plugins[i].object.on_plugin_unload();
            proof {
                self.journal@ = self.journal@.push(Event::UnloadHook(before.backing[i as int]));
                assert(self.journal@ =~= before.journal + Seq::new(
                    (i + 1) as nat,
                    |k: int| Event::UnloadHook(before.backing[k]),
                ));
            }
            i += 1;
        }
        self.plugins.clear();
        proof {
            self.journal@ = self.journal@ + Seq::new(
                before.backing.len(),
                |k: int| Event::Destroyed(before.backing[k]),
            );
        }
        let ghost emptied = self.journal@;
        let ghost mut closed: nat = 0;
        while self.loaded_libraries.len() > 0
            invariant
                self.plugins@.len() == 0,
                self.retired@ == before.retired,
                closed <= before.handles.len(),
                self.loaded_libraries@ == before.handles.subrange(
                    closed as int,
                    before.handles.len() as int,
                ),
                self.journal@ == emptied + Seq::new(
                    closed,
                    |k: int| Event::Closed((before.retired + k) as nat),
                ),
            decreases self.loaded_libraries@.len(),
        {
            let lib = self.loaded_libraries.remove(0);
            let _ = close_library(lib);
            proof {
                self.journal@ = self.journal@.push(Event::Closed(before.retired + closed));
                assert(self.journal@ =~= emptied + Seq::new(
                    closed + 1,
                    |k: int| Event::Closed((before.retired + k) as nat),
                ));
                closed = closed + 1;
                assert(self.loaded_libraries@ =~= before.handles.subrange(
                    closed as int,
                    before.handles.len() as int,
                ));
            }
        }
        proof {
            self.retired@ = before.next_serial();
            assert(self@.journal =~= before.drained().journal);
            assert(self@.handles =~= before.drained().handles);
            assert(self@.instances =~= before.drained().instances);
            assert(self@.backing =~= before.drained().backing);
            if before.valid() {
                lemma_drain_keeps_order(
                    before.journal,
                    before.backing,
                    before.retired,
                    before.handles.len(),
                );
            }
        }
    }

    /// The drain that runs when a manager is let go: `unload`, unless there
    /// is nothing registered and nothing tracked.
    pub fn teardown(&mut self)
        ensures
            final(self)@ == if old(self)@.instances.len() == 0 && old(self)@.handles.len() == 0 {
                old(self)@
            } else {
                old(self)@.drained()
            },
            old(self)@.valid() ==> final(self)@.valid(),
    {
        if self.plugins.len() > 0 || self.loaded_libraries.len() > 0 {
            self.unload();
        }
    }

    /// The names of the registered plugins, in load order.
    pub fn names(&self) -> (r: Vec<&'static str>)
        ensures
            r@.len() == self@.names().len(),
            forall|i: int| 0 <= i < r@.len() ==> (#[trigger] r@[i])@ == self@.names()[i],
    {
        let mut r: Vec<&'static str> = Vec::new();
        let mut i: usize = 0;
        while i < self.plugins.len()
            invariant
                i <= self.plugins@.len(),
                r@.len() == i,
                forall|k: int| 0 <= k < i ==> (#[trigger] r@[k])@ == self@.names()[k],
            decreases self.plugins@.len() - i,
        {
            r.push(self.plugins[i].object.name());
            i += 1;
        }
        r
    }

    /// The manager in the form that debug output gives a struct with the one
    /// field `plugins`, the list of the registered names.
    pub fn describe(&self) -> (text: String)
        ensures
            text@ == "PluginManager { plugins: "@ + debug_list(self@.names()) + " }"@,
    {
        let names = self.names();
        assert(Seq::new(names@.len(), |i: int| names@[i]@) =~= self@.names());
        let list = format_names(&names);
        let mut text = String::from_str("PluginManager { plugins: ");
        text.append(list.as_str());
        text.append(" }");
        text
    }

    /// How many images are tracked.
    pub fn library_count(&self) -> (n: usize)
        ensures
            n == self@.handles.len(),
    {
        self.loaded_libraries.len()
    }

    /// How many plugins are registered.
    pub fn plugin_count(&self) -> (n: usize)
        ensures
            n == self@.instances.len(),
    {
        self.plugins.len()
    }

    /// The index in load order of the first registered plugin called `name`.
    pub fn position(&self, name: &str) -> (r: Option<usize>)
        ensures
            match r {
                Some(i) => first_match(self@.names(), name@) == Some(i as int),
                None => first_match(self@.names(), name@) is None,
            },
    {
        let ghost names = self@.names();
        let mut i: usize = 0;
        while i < self.plugins.len()
            invariant
                i <= self.plugins@.len(),
                names == self@.names(),
                scan(names, name@, 0) == scan(names, name@, i as int),
            decreases self.plugins@.len() - i,
        {
            if same_text(self.plugins[i].object.name(), name) {
                return Some(i);
            }
            i += 1;
        }
        None
    }

    /// The first registered plugin called `name`, in load order.
    pub fn get(&self, name: &str) -> (r: Result<&P, LookupError>)
        ensures
            match r {
                Ok(p) => first_match(self@.names(), name@) is Some && *p
                    == self@.instances[first_match(self@.names(), name@).unwrap()],
                Err(e) => first_match(self@.names(), name@) is None && e == LookupError::NotFound,
            },
    {
        match self.position(name) {
            Some(i) => Ok(&self.plugins[i].object),
            None => Err(LookupError::NotFound),
        }
    }
}

} // verus!
