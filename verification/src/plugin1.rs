//! A sample plugin whose operation adds its two arguments.

use vstd::prelude::*;
use crate::plugin::HookFailure;
use crate::plugin::Plugin;

verus! {

/// The sum of two machine integers, wrapped round at the ends of the range.
pub open spec fn wrapped_sum(a: int, b: int, lo: int, hi: int) -> int {
    if a + b > hi {
        a + b - (hi - lo + 1)
    } else if a + b < lo {
        a + b + (hi - lo + 1)
    } else {
        a + b
    }
}

#[derive(Debug)]
pub struct Plugin1 {
    counter: usize,
}

impl Plugin1 {
    /// How often the load hook has marked this instance: 0 when fresh, 1 once loaded.
    pub closed spec fn marks(&self) -> nat {
        self.counter as nat
    }

    /// The executable form of `marks`.
    pub fn counter(&self) -> (n: usize)
        ensures
            n == self.marks(),
    {
        self.counter
    }
}

impl Default for Plugin1 {
    fn default() -> (p: Plugin1)
        ensures
            p.marks() == 0,
    {
        Plugin1 { counter: 0 }
    }
}

impl Plugin for Plugin1 {
    open spec fn label(&self) -> Seq<char> {
        "Plugin1"@
    }

    open spec fn load_succeeds(&self) -> bool {
        true
    }

    open spec fn outcome(&self, a: i64, b: i64) -> i64 {
        wrapped_sum(a as int, b as int, i64::MIN as int, i64::MAX as int) as i64
    }

    fn name(&self) -> (r: &'static str) {
        "Plugin1"
    }

    fn on_plugin_load(&mut self) -> (r: Result<(), HookFailure>)
        ensures
            final(self).marks() == 1,
    {
        self.counter = 1;
        Ok(())
    }

    fn on_plugin_unload(&self) {
    }

    fn work(&self, a: i64, b: i64) -> (r: i64) {
        a.wrapping_add(b)
    }
}

/// Adds two integers, wrapping round at the ends of the range.
pub fn add(a: isize, b: isize) -> (r: isize)
    ensures
        r == wrapped_sum(a as int, b as int, isize::MIN as int, isize::MAX as int),
{
    a.wrapping_add(b)
}

} // verus!
