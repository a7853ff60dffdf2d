//! The capability interface that every plugin implements.

use vstd::prelude::*;

verus! {

/// A lifecycle hook reported that it could not do its work.
#[derive(Debug, Clone, Copy, PartialEq, Eq, Structural)]
pub struct HookFailure;

/// The name of the one symbol that a plugin library exports: its
/// constructor, which takes nothing and returns an owned plugin object.
pub fn constructor_symbol() -> (name: &'static str)
    ensures
        name@ == "_plugin_create"@,
{
    "_plugin_create"
}

/// A plugin which allows you to add extra functionality.
///
/// The three spec functions name what the executable methods return, so that
/// a host can state what it does with an instance it knows nothing else about.
/// A verified implementation defines them for its own type; the bodies given
/// here say nothing of the name or of the operation, so that an implementation
/// which is not verified need not mention them.
pub trait Plugin {
    /// The identifier that `name` returns.
    open spec fn label(&self) -> Seq<char> {
        arbitrary()
    }

    /// Whether `on_plugin_load` reports success when fired on this instance.
    open spec fn load_succeeds(&self) -> bool {
        true
    }

    /// What `work` computes on this instance.
    open spec fn outcome(&self, a: i64, b: i64) -> i64 {
        arbitrary()
    }

    /// Get a name describing the `Plugin`.
    fn name(&self) -> (r: &'static str)
        ensures
            r@ == self.label(),
    ;

    /// A callback fired immediately after the plugin is loaded. Usually used
    /// for initialization. It may change the instance, never its name.
    fn on_plugin_load(&mut self) -> (r: Result<(), HookFailure>)
        ensures
            r.is_ok() == old(self).load_succeeds(),
            final(self).label() == old(self).label(),
    ;

    /// A callback fired immediately before the plugin is unloaded. Use this if
    /// you need to do any cleanup.
    fn on_plugin_unload(&self) {
    }

    /// The domain operation.
    fn work(&self, a: i64, b: i64) -> (r: i64)
        ensures
            r == self.outcome(a, b),
    ;
}

/// An owned trait object is a plugin: every call goes to the object inside.
impl Plugin for Box<dyn Plugin> {
    open spec fn label(&self) -> Seq<char> {
        (**self).label()
    }

    open spec fn load_succeeds(&self) -> bool {
        (**self).load_succeeds()
    }

    open spec fn outcome(&self, a: i64, b: i64) -> i64 {
        (**self).outcome(a, b)
    }

    fn name(&self) -> (r: &'static str) {
        (**self).name()
    }

    fn on_plugin_load(&mut self) -> (r: Result<(), HookFailure>) {
        (**self).on_plugin_load()
    }

    fn on_plugin_unload(&self) {
        (**self).on_plugin_unload()
    }

    fn work(&self, a: i64, b: i64) -> (r: i64) {
        (**self).work(a, b)
    }
}

} // verus!
