use std::cell::RefCell;
use std::rc::Rc;

use libloading::Library;
use loader::manager::{LoadAttempt, LoadError, LookupError, PluginManager};
use loader::plugin::{constructor_symbol, HookFailure, Plugin};
use loader::plugin1::{add, Plugin1};

/// A handle on the running program itself: an image that is always there.
fn image() -> Library {
    libloading::os::unix::Library::this().into()
}

/// A plugin that writes down every call it gets.
struct Recorder {
    name: &'static str,
    offset: i64,
    fails: bool,
    log: Rc<RefCell<Vec<String>>>,
}

impl Recorder {
    fn boxed(
        name: &'static str,
        offset: i64,
        fails: bool,
        log: &Rc<RefCell<Vec<String>>>,
    ) -> Box<dyn Plugin> {
        Box::new(Recorder { name, offset, fails, log: Rc::clone(log) })
    }
}

impl Plugin for Recorder {
    fn name(&self) -> &'static str {
        self.name
    }

    fn on_plugin_load(&mut self) -> Result<(), HookFailure> {
        self.log.borrow_mut().push(format!("load {}", self.offset));
        if self.fails {
            Err(HookFailure)
        } else {
            Ok(())
        }
    }

    fn on_plugin_unload(&self) {
        self.log.borrow_mut().push(format!("unload {}", self.offset));
    }

    fn work(&self, a: i64, b: i64) -> i64 {
        self.log.borrow_mut().push(format!("work {}", self.offset));
        a + b + self.offset
    }
}

impl Drop for Recorder {
    fn drop(&mut self) {
        self.log.borrow_mut().push(format!("destroy {}", self.offset));
    }
}

fn new_log() -> Rc<RefCell<Vec<String>>> {
    Rc::new(RefCell::new(Vec::new()))
}

#[test]
fn plugin1_adds_and_is_gone_after_unload() {
    let mut manager: PluginManager<Plugin1> = PluginManager::new();
    let loaded = manager.load_plugin(LoadAttempt::Constructed(image(), Plugin1::default()));
    assert!(loaded.is_ok());
    {
        let plugin = manager.get("Plugin1").expect("registered");
        assert_eq!(plugin.name(), "Plugin1");
        assert_eq!(plugin.work(3, 4), 7);
    }
    manager.unload();
    assert!(matches!(manager.get("Plugin1"), Err(LookupError::NotFound)));
}

#[test]
fn failed_open_leaves_manager_empty() {
    let mut manager: PluginManager<Plugin1> = PluginManager::new();
    let result = manager.load_plugin(LoadAttempt::OpenFailed(libloading::Error::DlOpenUnknown));
    assert!(matches!(result, Err(LoadError::OpenFailed(libloading::Error::DlOpenUnknown))));
    assert_eq!(manager.plugin_count(), 0);
    assert_eq!(manager.library_count(), 0);
    assert!(manager.names().is_empty());
}

#[test]
fn no_lookup_succeeds_after_unload() {
    let log = new_log();
    let mut manager: PluginManager<Box<dyn Plugin>> = PluginManager::new();
    assert!(manager
        .load_plugin(LoadAttempt::Constructed(image(), Recorder::boxed("first", 1, false, &log)))
        .is_ok());
    assert!(manager
        .load_plugin(LoadAttempt::Constructed(image(), Recorder::boxed("second", 2, false, &log)))
        .is_ok());
    assert!(manager.get("first").is_ok());
    assert!(manager.get("second").is_ok());
    manager.unload();
    assert!(matches!(manager.get("first"), Err(LookupError::NotFound)));
    assert!(matches!(manager.get("second"), Err(LookupError::NotFound)));
    assert_eq!(manager.position("first"), None);
}

#[test]
fn unload_drains_everything_and_twice_is_harmless() {
    let log = new_log();
    let mut manager: PluginManager<Box<dyn Plugin>> = PluginManager::new();
    assert!(manager
        .load_plugin(LoadAttempt::Constructed(image(), Recorder::boxed("first", 1, false, &log)))
        .is_ok());
    assert!(manager
        .load_plugin(LoadAttempt::SymbolNotFound(image(), libloading::Error::DlSymUnknown))
        .is_err());
    assert_eq!(manager.plugin_count(), 1);
    assert_eq!(manager.library_count(), 2);
    manager.unload();
    assert_eq!(manager.plugin_count(), 0);
    assert_eq!(manager.library_count(), 0);
    let seen = log.borrow().clone();
    manager.unload();
    assert_eq!(manager.plugin_count(), 0);
    assert_eq!(manager.library_count(), 0);
    assert_eq!(*log.borrow(), seen);
}

#[test]
fn hooks_come_in_order_round_the_operation() {
    let log = new_log();
    let mut manager: PluginManager<Box<dyn Plugin>> = PluginManager::new();
    assert!(manager
        .load_plugin(LoadAttempt::Constructed(image(), Recorder::boxed("only", 10, false, &log)))
        .is_ok());
    assert_eq!(manager.get("only").expect("registered").work(1, 2), 13);
    manager.unload();
    let expected: Vec<String> = vec![
        "load 10".to_string(),
        "work 10".to_string(),
        "unload 10".to_string(),
        "destroy 10".to_string(),
    ];
    assert_eq!(*log.borrow(), expected);
}

#[test]
fn every_unload_hook_fires_before_any_instance_is_destroyed() {
    let log = new_log();
    let mut manager: PluginManager<Box<dyn Plugin>> = PluginManager::new();
    assert!(manager
        .load_plugin(LoadAttempt::Constructed(image(), Recorder::boxed("a", 1, false, &log)))
        .is_ok());
    assert!(manager
        .load_plugin(LoadAttempt::Constructed(image(), Recorder::boxed("b", 2, false, &log)))
        .is_ok());
    manager.unload();
    let expected: Vec<String> = vec![
        "load 1".to_string(),
        "load 2".to_string(),
        "unload 1".to_string(),
        "unload 2".to_string(),
        "destroy 1".to_string(),
        "destroy 2".to_string(),
    ];
    assert_eq!(*log.borrow(), expected);
}

#[test]
fn failed_load_leaves_earlier_plugin_reachable() {
    let log = new_log();
    let mut manager: PluginManager<Box<dyn Plugin>> = PluginManager::new();
    assert!(manager
        .load_plugin(LoadAttempt::Constructed(image(), Recorder::boxed("A", 5, false, &log)))
        .is_ok());
    let open = manager.load_plugin(LoadAttempt::OpenFailed(libloading::Error::DlOpenUnknown));
    assert!(matches!(open, Err(LoadError::OpenFailed(_))));
    let symbol =
        manager.load_plugin(LoadAttempt::SymbolNotFound(image(), libloading::Error::DlSymUnknown));
    assert!(matches!(symbol, Err(LoadError::SymbolNotFound(libloading::Error::DlSymUnknown))));
    let hook = manager
        .load_plugin(LoadAttempt::Constructed(image(), Recorder::boxed("B", 6, true, &log)));
    assert!(matches!(hook, Err(LoadError::HookFailure(HookFailure))));
    assert_eq!(manager.names(), vec!["A"]);
    assert_eq!(manager.get("A").expect("still registered").work(1, 1), 7);
    assert!(matches!(manager.get("B"), Err(LookupError::NotFound)));
    assert_eq!(manager.library_count(), 3);
}

#[test]
fn failed_load_hook_destroys_the_instance_at_once() {
    let log = new_log();
    let mut manager: PluginManager<Box<dyn Plugin>> = PluginManager::new();
    let hook = manager
        .load_plugin(LoadAttempt::Constructed(image(), Recorder::boxed("B", 6, true, &log)));
    assert!(matches!(hook, Err(LoadError::HookFailure(HookFailure))));
    let expected: Vec<String> = vec!["load 6".to_string(), "destroy 6".to_string()];
    assert_eq!(*log.borrow(), expected);
    assert_eq!(manager.plugin_count(), 0);
    assert_eq!(manager.library_count(), 1);
    manager.unload();
    assert_eq!(*log.borrow(), expected);
    assert_eq!(manager.library_count(), 0);
}

#[test]
fn lookup_returns_the_first_loaded_of_two_with_one_name() {
    let log = new_log();
    let mut manager: PluginManager<Box<dyn Plugin>> = PluginManager::new();
    assert!(manager
        .load_plugin(LoadAttempt::Constructed(image(), Recorder::boxed("other", 1, false, &log)))
        .is_ok());
    assert!(manager
        .load_plugin(LoadAttempt::Constructed(image(), Recorder::boxed("twin", 100, false, &log)))
        .is_ok());
    assert!(manager
        .load_plugin(LoadAttempt::Constructed(image(), Recorder::boxed("twin", 200, false, &log)))
        .is_ok());
    assert_eq!(manager.position("twin"), Some(1));
    assert_eq!(manager.get("twin").expect("registered").work(0, 0), 100);
    assert_eq!(manager.names(), vec!["other", "twin", "twin"]);
}

#[test]
fn lookup_wants_the_whole_name() {
    let mut manager: PluginManager<Plugin1> = PluginManager::new();
    assert!(manager
        .load_plugin(LoadAttempt::Constructed(image(), Plugin1::default()))
        .is_ok());
    assert!(matches!(manager.get("Plugin"), Err(LookupError::NotFound)));
    assert!(matches!(manager.get("Plugin11"), Err(LookupError::NotFound)));
    assert!(matches!(manager.get("plugin1"), Err(LookupError::NotFound)));
    assert!(matches!(manager.get(""), Err(LookupError::NotFound)));
    assert_eq!(manager.position("Plugin1"), Some(0));
}

#[test]
fn lookup_in_a_new_manager_finds_nothing() {
    let manager: PluginManager<Plugin1> = PluginManager::new();
    assert!(matches!(manager.get("Plugin1"), Err(LookupError::NotFound)));
    assert_eq!(manager.position("Plugin1"), None);
    assert_eq!(manager.plugin_count(), 0);
    assert_eq!(manager.library_count(), 0);
}

#[test]
fn describe_lists_the_names_in_debug_form() {
    let mut manager: PluginManager<Plugin1> = PluginManager::new();
    assert_eq!(manager.describe(), "PluginManager { plugins: [] }");
    assert!(manager
        .load_plugin(LoadAttempt::Constructed(image(), Plugin1::default()))
        .is_ok());
    assert_eq!(manager.describe(), "PluginManager { plugins: [\"Plugin1\"] }");
}

#[test]
fn teardown_drains_like_unload() {
    let log = new_log();
    let mut manager: PluginManager<Box<dyn Plugin>> = PluginManager::new();
    manager.teardown();
    assert_eq!(manager.library_count(), 0);
    assert!(manager
        .load_plugin(LoadAttempt::Constructed(image(), Recorder::boxed("a", 1, false, &log)))
        .is_ok());
    manager.teardown();
    assert_eq!(manager.plugin_count(), 0);
    assert_eq!(manager.library_count(), 0);
    let expected: Vec<String> =
        vec!["load 1".to_string(), "unload 1".to_string(), "destroy 1".to_string()];
    assert_eq!(*log.borrow(), expected);
}

#[test]
fn load_after_unload_registers_again() {
    let mut manager: PluginManager<Plugin1> = PluginManager::new();
    assert!(manager
        .load_plugin(LoadAttempt::Constructed(image(), Plugin1::default()))
        .is_ok());
    manager.unload();
    assert!(manager
        .load_plugin(LoadAttempt::Constructed(image(), Plugin1::default()))
        .is_ok());
    assert_eq!(manager.get("Plugin1").expect("registered").counter(), 1);
    assert_eq!(manager.library_count(), 1);
}

#[test]
fn plugin1_counts_its_load_and_adds_with_wrapping() {
    let mut plugin = Plugin1::default();
    assert_eq!(plugin.counter(), 0);
    assert_eq!(plugin.on_plugin_load(), Ok(()));
    assert_eq!(plugin.counter(), 1);
    plugin.on_plugin_unload();
    assert_eq!(plugin.name(), "Plugin1");
    assert_eq!(plugin.work(3, 4), 7);
    assert_eq!(plugin.work(-3, 1), -2);
    assert_eq!(plugin.work(i64::MAX, 1), i64::MIN);
    assert_eq!(plugin.work(i64::MIN, -1), i64::MAX);
}

#[test]
fn add_sums_with_wrapping() {
    assert_eq!(add(5, 2), 7);
    assert_eq!(add(-5, 2), -3);
    assert_eq!(add(isize::MAX, 1), isize::MIN);
    assert_eq!(add(isize::MIN, -1), isize::MAX);
}

#[test]
fn constructor_symbol_is_the_fixed_name() {
    assert_eq!(constructor_symbol(), "_plugin_create");
}

#[test]
fn boxed_plugin_forwards_every_call() {
    let log = new_log();
    let mut boxed: Box<dyn Plugin> = Recorder::boxed("inner", 3, false, &log);
    assert_eq!(Plugin::name(&boxed), "inner");
    assert_eq!(Plugin::on_plugin_load(&mut boxed), Ok(()));
    assert_eq!(Plugin::work(&boxed, 1, 1), 5);
    Plugin::on_plugin_unload(&boxed);
    let expected: Vec<String> =
        vec!["load 3".to_string(), "work 3".to_string(), "unload 3".to_string()];
    assert_eq!(*log.borrow(), expected);
}
