use dygpi::error::{Cause, Error, ErrorKind};
use dygpi::library::{open_outcome, LoadedLibrary};
use dygpi::manager::PluginManager;
use dygpi::plugin::{compatibility_hash, Plugin, PluginRegistrar, PACKAGE_VERSION, TOOLCHAIN_VERSION};
use dygpi::sound::SoundEffectPlugin;
use search_path::SearchPath;
use std::sync::Arc;

/// A plugin whose lifecycle hooks fail on demand.
#[derive(Debug)]
struct Moody {
    id: String,
    loads: bool,
    unloads: bool,
}

impl Moody {
    fn new(id: &str, loads: bool, unloads: bool) -> Self {
        Moody { id: id.to_string(), loads, unloads }
    }
}

impl Plugin for Moody {
    fn plugin_id(&self) -> &String {
        &self.id
    }

    fn on_load(&self) -> Result<(), Error> {
        if self.loads {
            Ok(())
        } else {
            Err(Error::from(ErrorKind::PluginRegistration(Cause::Reported(format!(
                "{} does not load",
                self.id
            )))))
        }
    }

    fn on_unload(&self) -> Result<(), Error> {
        if self.unloads {
            Ok(())
        } else {
            Err(Error::from(ErrorKind::PluginRegistration(Cause::Reported(format!(
                "{} does not unload",
                self.id
            )))))
        }
    }
}

/// A handle of the running program itself, which the loader always has.
fn handle() -> libloading::Library {
    libloading::Library::from(libloading::os::unix::Library::this())
}

fn opened(path: &str) -> LoadedLibrary {
    open_outcome(path.to_string(), Ok(handle())).unwrap()
}

fn host_hash() -> u64 {
    compatibility_hash(PACKAGE_VERSION, TOOLCHAIN_VERSION)
}

/// Load a library that registers sound effects with these identifiers.
fn load_effects(
    manager: &mut PluginManager<SoundEffectPlugin>,
    path: &str,
    ids: &[&str],
) -> Result<(), Error> {
    let path = manager.library_path(path);
    let library = open_outcome(path, Ok(handle()))?;
    let library = manager.check_compatibility(library, Ok(host_hash()))?;
    let mut registrar = PluginRegistrar::default();
    for id in ids {
        registrar.register(SoundEffectPlugin::new(id));
    }
    manager.register_plugins(library, Ok(registrar))
}

fn load_moody(manager: &mut PluginManager<Moody>, path: &str, plugins: Vec<Moody>) -> Result<(), Error> {
    let library = manager.check_compatibility(opened(path), Ok(host_hash()))?;
    let mut registrar = PluginRegistrar::default();
    for plugin in plugins {
        registrar.register(plugin);
    }
    manager.register_plugins(library, Ok(registrar))
}

#[test]
fn test_library_not_found() {
    let plugin_manager: PluginManager<SoundEffectPlugin> = PluginManager::default();

    let path = plugin_manager.library_path("libunknown.so");
    assert_eq!(path, "libunknown.so");
    let result = open_outcome(path, Err(libloading::Error::DlOpenUnknown));
    assert!(result.is_err());
    let err_message = format!("{:?}", result.err().unwrap());
    println!("{}", err_message);
    assert!(err_message.starts_with("Error(LibraryOpenFailed"));
}

#[test]
fn test_library_with_no_plugins() {
    let mut plugin_manager: PluginManager<SoundEffectPlugin> = PluginManager::default();

    let library = plugin_manager
        .check_compatibility(opened("libsound_api.so"), Ok(host_hash()))
        .unwrap();
    let result = plugin_manager.register_plugins(library, Err(libloading::Error::DlSymUnknown));
    assert!(result.is_err());
    let err_message = format!("{:?}", result.err().unwrap());
    println!("err_message: {}", err_message);
    assert!(err_message.starts_with(r##"Error(SymbolNotFound("register_plugins"##));
}

#[test]
fn test_my_plugin() {
    let mut plugin_manager: PluginManager<SoundEffectPlugin> = PluginManager::default();

    load_effects(
        &mut plugin_manager,
        "libsound_plugin.so",
        &["sound_plugin::sound_plugin::DelayEffect"],
    )
    .unwrap();

    assert!(!plugin_manager.is_empty());
    assert_eq!(plugin_manager.len(), 1);

    let plugin: Arc<SoundEffectPlugin> = plugin_manager
        .get("sound_plugin::sound_plugin::DelayEffect")
        .unwrap();

    plugin.play();
}

#[test]
fn test_my_other_plugin() {
    let mut plugin_manager: PluginManager<SoundEffectPlugin> = PluginManager::default();
    plugin_manager.set_registration_fn_name(b"register_other_plugins\0");
    assert_eq!(plugin_manager.registration_fn_name().as_slice(), b"register_other_plugins\0");

    load_effects(
        &mut plugin_manager,
        "libsound_plugin.so",
        &["sound_plugin::sound_plugin::ReverbEffect"],
    )
    .unwrap();

    assert!(!plugin_manager.is_empty());
    assert_eq!(plugin_manager.len(), 1);

    let plugin: Arc<SoundEffectPlugin> = plugin_manager
        .get("sound_plugin::sound_plugin::ReverbEffect")
        .unwrap();

    plugin.play();
}

#[test]
fn new_manager_is_empty() {
    let manager: PluginManager<SoundEffectPlugin> = PluginManager::default();
    assert!(manager.is_empty());
    assert_eq!(manager.len(), 0);
    assert!(!manager.contains("a"));
    assert!(manager.get("a").is_none());
    assert!(manager.plugins().is_empty());
    assert_eq!(manager.registration_fn_name().as_slice(), b"register_plugins\0");
}

#[test]
fn loaded_plugins_are_found_by_their_identifiers() {
    let mut manager: PluginManager<SoundEffectPlugin> = PluginManager::default();
    load_effects(&mut manager, "valid.lib", &["a", "b", "c"]).unwrap();
    for id in ["a", "b", "c"] {
        assert!(manager.contains(id));
        assert_eq!(manager.get(id).unwrap().plugin_id(), id);
    }
    assert!(!manager.contains("d"));
    let ids: Vec<String> = manager.plugins().iter().map(|p| p.plugin_id().clone()).collect();
    assert_eq!(ids, vec!["a", "b", "c"]);
}

#[test]
fn incompatible_library_is_refused_before_registration() {
    let mut manager: PluginManager<SoundEffectPlugin> = PluginManager::default();
    load_effects(&mut manager, "first.lib", &["a"]).unwrap();

    let other = host_hash().wrapping_add(1);
    let error = manager.check_compatibility(opened("other.lib"), Ok(other)).err().unwrap();
    match error.kind() {
        ErrorKind::IncompatibleLibraryVersion(path) => assert_eq!(path, "other.lib"),
        kind => panic!("unexpected error {:?}", kind),
    }
    assert_eq!(manager.len(), 1);
    assert!(manager.contains("a"));
    assert!(manager.is_open("other.lib"));
}

#[test]
fn fingerprint_of_the_host_can_be_set() {
    let mut manager: PluginManager<SoundEffectPlugin> = PluginManager::default();
    manager.set_compatibility_hash(7);
    assert!(manager.check_compatibility(opened("seven.lib"), Ok(7)).is_ok());
    let error = manager.check_compatibility(opened("eight.lib"), Ok(8)).err().unwrap();
    assert!(matches!(error.kind(), ErrorKind::IncompatibleLibraryVersion(_)));
}

#[test]
fn missing_compatibility_function_is_symbol_not_found() {
    let mut manager: PluginManager<SoundEffectPlugin> = PluginManager::default();
    let error = manager
        .check_compatibility(opened("plain.lib"), Err(libloading::Error::DlSymUnknown))
        .err()
        .unwrap();
    match error.kind() {
        ErrorKind::SymbolNotFound(symbol, path, Cause::Loader(_)) => {
            assert_eq!(symbol, "compatibility_hash\0");
            assert_eq!(path, "plain.lib");
        }
        kind => panic!("unexpected error {:?}", kind),
    }
    assert!(manager.is_empty());
    assert!(manager.is_open("plain.lib"));
}

#[test]
fn missing_registration_function_leaves_directory_unchanged() {
    let mut manager: PluginManager<SoundEffectPlugin> = PluginManager::default();
    load_effects(&mut manager, "first.lib", &["a", "b"]).unwrap();
    manager.set_registration_fn_name(b"register_effects\0");

    let library = manager.check_compatibility(opened("second.lib"), Ok(host_hash())).unwrap();
    let error = manager
        .register_plugins(library, Err(libloading::Error::DlSymUnknown))
        .err()
        .unwrap();
    match error.kind() {
        ErrorKind::SymbolNotFound(symbol, path, Cause::Loader(_)) => {
            assert_eq!(symbol, "register_effects\0");
            assert_eq!(path, "second.lib");
        }
        kind => panic!("unexpected error {:?}", kind),
    }
    assert_eq!(manager.len(), 2);
    assert!(manager.contains("a"));
    assert!(manager.contains("b"));
    assert!(manager.is_open("second.lib"));
}

#[test]
fn reported_error_installs_none_of_the_registered_plugins() {
    let mut manager: PluginManager<SoundEffectPlugin> = PluginManager::default();
    load_effects(&mut manager, "first.lib", &["a"]).unwrap();

    let library = manager.check_compatibility(opened("second.lib"), Ok(host_hash())).unwrap();
    let mut registrar = PluginRegistrar::default();
    registrar.register(SoundEffectPlugin::new("x"));
    registrar.register(SoundEffectPlugin::new("y"));
    registrar.register(SoundEffectPlugin::new("z"));
    registrar.error(Cause::Reported("out of voices".to_string()));
    registrar.register(SoundEffectPlugin::new("w"));

    let error = manager.register_plugins(library, Ok(registrar)).err().unwrap();
    match error.kind() {
        ErrorKind::PluginRegistration(Cause::Reported(text)) => assert_eq!(text, "out of voices"),
        kind => panic!("unexpected error {:?}", kind),
    }
    assert_eq!(manager.len(), 1);
    for id in ["x", "y", "z", "w"] {
        assert!(!manager.contains(id));
    }
}

#[test]
fn library_closes_with_its_last_plugin() {
    let mut manager: PluginManager<SoundEffectPlugin> = PluginManager::default();
    load_effects(&mut manager, "shared.lib", &["a", "b"]).unwrap();
    assert!(manager.is_open("shared.lib"));

    manager.unload_plugin("a").unwrap();
    assert_eq!(manager.len(), 1);
    assert!(manager.is_open("shared.lib"));

    manager.unload_plugin("b").unwrap();
    assert_eq!(manager.len(), 0);
    assert!(!manager.is_open("shared.lib"));
}

#[test]
fn load_and_unload_scenario() {
    let mut manager: PluginManager<SoundEffectPlugin> =
        PluginManager::new_with_search_path(SearchPath::default());

    let path = manager.library_path("missing.lib");
    assert_eq!(path, "missing.lib");
    let error = open_outcome(path, Err(libloading::Error::DlOpenUnknown)).err().unwrap();
    match error.kind() {
        ErrorKind::LibraryOpenFailed(path, Cause::Loader(_)) => assert_eq!(path, "missing.lib"),
        kind => panic!("unexpected error {:?}", kind),
    }

    load_effects(&mut manager, "valid.lib", &["a", "b"]).unwrap();
    assert_eq!(manager.len(), 2);
    assert_eq!(manager.plugins().len(), 2);

    manager.unload_plugin("a").unwrap();
    assert_eq!(manager.len(), 1);
    assert!(manager.is_open("valid.lib"));

    manager.unload_plugin("b").unwrap();
    assert_eq!(manager.len(), 0);
    assert!(!manager.is_open("valid.lib"));
}

#[test]
fn unloading_an_unknown_plugin_changes_nothing() {
    let mut manager: PluginManager<SoundEffectPlugin> = PluginManager::default();
    load_effects(&mut manager, "valid.lib", &["a"]).unwrap();
    manager.unload_plugin("nobody").unwrap();
    assert_eq!(manager.len(), 1);
    assert!(manager.is_open("valid.lib"));
}

#[test]
fn colliding_identifier_replaces_the_record() {
    let mut manager: PluginManager<SoundEffectPlugin> = PluginManager::default();
    load_effects(&mut manager, "first.lib", &["a", "b"]).unwrap();
    load_effects(&mut manager, "second.lib", &["b", "c"]).unwrap();
    assert_eq!(manager.len(), 3);
    let ids: Vec<String> = manager.plugins().iter().map(|p| p.plugin_id().clone()).collect();
    assert_eq!(ids, vec!["a", "b", "c"]);
    assert!(manager.is_open("first.lib"));
    assert!(manager.is_open("second.lib"));

    manager.unload_plugin("a").unwrap();
    assert!(!manager.is_open("first.lib"));
    manager.unload_plugin("b").unwrap();
    assert!(manager.is_open("second.lib"));
    manager.unload_plugin("c").unwrap();
    assert!(!manager.is_open("second.lib"));
}

#[test]
fn replacing_the_last_record_of_a_library_releases_it() {
    let mut manager: PluginManager<SoundEffectPlugin> = PluginManager::default();
    load_effects(&mut manager, "first.lib", &["a"]).unwrap();
    load_effects(&mut manager, "second.lib", &["a"]).unwrap();
    assert_eq!(manager.len(), 1);
    assert!(!manager.is_open("first.lib"));
    assert!(manager.is_open("second.lib"));
}

#[test]
fn failing_on_load_keeps_the_plugins_before_it() {
    let mut manager: PluginManager<Moody> = PluginManager::default();
    let error = load_moody(
        &mut manager,
        "moody.lib",
        vec![
            Moody::new("a", true, true),
            Moody::new("b", false, true),
            Moody::new("c", true, true),
        ],
    )
    .err()
    .unwrap();
    match error.kind() {
        ErrorKind::PluginRegistration(Cause::Reported(text)) => assert_eq!(text, "b does not load"),
        kind => panic!("unexpected error {:?}", kind),
    }
    assert_eq!(manager.len(), 1);
    assert!(manager.contains("a"));
    assert!(!manager.contains("b"));
    assert!(!manager.contains("c"));
}

#[test]
fn failing_on_unload_still_removes_the_record() {
    let mut manager: PluginManager<Moody> = PluginManager::default();
    load_moody(&mut manager, "moody.lib", vec![Moody::new("a", true, false)]).unwrap();
    let error = manager.unload_plugin("a").err().unwrap();
    match error.kind() {
        ErrorKind::PluginRegistration(Cause::Reported(text)) => {
            assert_eq!(text, "a does not unload")
        }
        kind => panic!("unexpected error {:?}", kind),
    }
    assert!(manager.is_empty());
    assert!(!manager.is_open("moody.lib"));
}

#[test]
fn unload_all_empties_the_directory() {
    let mut manager: PluginManager<SoundEffectPlugin> = PluginManager::default();
    load_effects(&mut manager, "first.lib", &["a", "b"]).unwrap();
    load_effects(&mut manager, "second.lib", &["c"]).unwrap();
    manager.unload_all().unwrap();
    assert!(manager.is_empty());
    assert!(!manager.is_open("first.lib"));
    assert!(!manager.is_open("second.lib"));
}

#[test]
fn unload_all_stops_at_the_first_failure() {
    let mut manager: PluginManager<Moody> = PluginManager::default();
    load_moody(
        &mut manager,
        "first.lib",
        vec![Moody::new("a", true, true), Moody::new("b", true, false)],
    )
    .unwrap();
    load_moody(&mut manager, "second.lib", vec![Moody::new("c", true, true)]).unwrap();

    let error = manager.unload_all().err().unwrap();
    match error.kind() {
        ErrorKind::PluginRegistration(Cause::Reported(text)) => {
            assert_eq!(text, "b does not unload")
        }
        kind => panic!("unexpected error {:?}", kind),
    }
    assert_eq!(manager.len(), 1);
    assert!(manager.contains("c"));
    assert!(!manager.is_open("first.lib"));
    assert!(manager.is_open("second.lib"));
}

#[test]
fn kept_library_takes_the_first_empty_slot() {
    let mut manager: PluginManager<SoundEffectPlugin> = PluginManager::default();
    assert_eq!(manager.keep_library(opened("zero.lib")), 0);
    assert_eq!(manager.keep_library(opened("one.lib")), 1);
    let plugin = Arc::new(SoundEffectPlugin::new("a"));
    manager.install(plugin, 0, Ok(())).unwrap();
    manager.unload_plugin("a").unwrap();
    assert!(!manager.is_open("zero.lib"));
    assert_eq!(manager.keep_library(opened("two.lib")), 0);
    assert_eq!(manager.keep_library(opened("three.lib")), 2);
}

#[test]
fn install_hands_back_the_failure_of_on_load() {
    let mut manager: PluginManager<SoundEffectPlugin> = PluginManager::default();
    let slot = manager.keep_library(opened("valid.lib"));
    let failure = Error::from(ErrorKind::UnknownPluginManagerType("t".to_string()));
    let error = manager
        .install(Arc::new(SoundEffectPlugin::new("a")), slot, Err(failure))
        .err()
        .unwrap();
    assert!(matches!(error.kind(), ErrorKind::UnknownPluginManagerType(_)));
    assert!(manager.is_empty());
}

#[test]
fn plugin_held_by_a_caller_keeps_its_library_open() {
    let mut manager: PluginManager<SoundEffectPlugin> = PluginManager::default();
    load_effects(&mut manager, "held.lib", &["a"]).unwrap();

    let held = manager.get("a").unwrap();
    manager.unload_plugin("a").unwrap();
    assert!(!manager.contains("a"));
    assert_eq!(manager.len(), 0);
    assert_eq!(held.plugin_id(), "a");
    held.play();
    assert!(manager.is_open("held.lib"));
}

#[test]
fn plugin_given_back_before_unloading_lets_its_library_close() {
    let mut manager: PluginManager<SoundEffectPlugin> = PluginManager::default();
    load_effects(&mut manager, "lent.lib", &["a"]).unwrap();

    let held = manager.get("a").unwrap();
    held.play();
    drop(held);
    manager.unload_plugin("a").unwrap();
    assert!(!manager.is_open("lent.lib"));
}

#[test]
fn replaced_plugin_held_by_a_caller_keeps_its_library_open() {
    let mut manager: PluginManager<SoundEffectPlugin> = PluginManager::default();
    load_effects(&mut manager, "first.lib", &["a"]).unwrap();
    let held = manager.get("a").unwrap();
    load_effects(&mut manager, "second.lib", &["a"]).unwrap();
    assert_eq!(manager.len(), 1);
    assert_eq!(held.plugin_id(), "a");
    assert!(manager.is_open("first.lib"));
    assert!(manager.is_open("second.lib"));
}

#[test]
fn unload_all_keeps_the_library_of_a_held_plugin_open() {
    let mut manager: PluginManager<SoundEffectPlugin> = PluginManager::default();
    load_effects(&mut manager, "first.lib", &["a"]).unwrap();
    load_effects(&mut manager, "second.lib", &["b"]).unwrap();
    let held = manager.get("b").unwrap();
    manager.unload_all().unwrap();
    assert!(manager.is_empty());
    assert_eq!(held.plugin_id(), "b");
    assert!(!manager.is_open("first.lib"));
    assert!(manager.is_open("second.lib"));
}

#[test]
fn unload_entry_goes_by_the_number_of_holders() {
    let mut manager: PluginManager<SoundEffectPlugin> = PluginManager::default();
    load_effects(&mut manager, "first.lib", &["a"]).unwrap();
    load_effects(&mut manager, "second.lib", &["b"]).unwrap();

    let (entry, gone) = manager.unload_entry(0, 2);
    assert_eq!(entry.plugin.plugin_id(), "a");
    assert!(gone.is_none());
    assert!(manager.is_open("first.lib"));
    assert_eq!(manager.len(), 1);

    let (entry, gone) = manager.unload_entry(0, 1);
    assert_eq!(entry.plugin.plugin_id(), "b");
    assert_eq!(gone.unwrap().file_name(), "second.lib");
    assert!(!manager.is_open("second.lib"));
    assert!(manager.is_empty());
}

#[test]
fn unload_entry_leaves_a_library_that_a_sibling_points_at() {
    let mut manager: PluginManager<SoundEffectPlugin> = PluginManager::default();
    load_effects(&mut manager, "shared.lib", &["a", "b"]).unwrap();
    let (entry, gone) = manager.unload_entry(0, 1);
    assert_eq!(entry.plugin.plugin_id(), "a");
    assert!(gone.is_none());
    assert!(manager.is_open("shared.lib"));
}

#[test]
fn replace_entry_goes_by_the_number_of_holders() {
    let mut manager: PluginManager<SoundEffectPlugin> = PluginManager::default();
    load_effects(&mut manager, "first.lib", &["a"]).unwrap();
    let second = manager.keep_library(opened("second.lib"));
    let third = manager.keep_library(opened("third.lib"));

    manager.replace_entry(0, Arc::new(SoundEffectPlugin::new("a")), second, 2);
    assert_eq!(manager.len(), 1);
    assert!(manager.is_open("first.lib"));

    manager.replace_entry(0, Arc::new(SoundEffectPlugin::new("a")), third, 1);
    assert_eq!(manager.len(), 1);
    assert!(!manager.is_open("second.lib"));
    assert!(manager.is_open("first.lib"));
    assert!(manager.is_open("third.lib"));
}

#[test]
fn held_plugin_keeps_its_library_open_after_its_siblings_left() {
    let mut manager: PluginManager<SoundEffectPlugin> = PluginManager::default();
    load_effects(&mut manager, "shared.lib", &["a", "b"]).unwrap();

    let held = manager.get("a").unwrap();
    manager.unload_plugin("a").unwrap();
    manager.unload_plugin("b").unwrap();
    assert!(manager.is_empty());
    assert_eq!(manager.kept_aside(), 1);
    assert_eq!(held.plugin_id(), "a");
    assert!(manager.is_open("shared.lib"));
}

#[test]
fn library_closes_with_its_last_plugin_once_no_plugin_of_it_is_held() {
    let mut manager: PluginManager<SoundEffectPlugin> = PluginManager::default();
    load_effects(&mut manager, "shared.lib", &["a", "b"]).unwrap();

    let held = manager.get("a").unwrap();
    manager.unload_plugin("a").unwrap();
    assert!(manager.is_open("shared.lib"));
    drop(held);
    manager.unload_plugin("b").unwrap();
    assert!(manager.is_empty());
    assert_eq!(manager.kept_aside(), 0);
    assert!(!manager.is_open("shared.lib"));
}

#[test]
fn library_of_a_plugin_that_was_let_go_closes_at_the_next_unloading() {
    let mut manager: PluginManager<SoundEffectPlugin> = PluginManager::default();
    load_effects(&mut manager, "held.lib", &["a"]).unwrap();
    load_effects(&mut manager, "other.lib", &["c"]).unwrap();

    let held = manager.get("a").unwrap();
    manager.unload_plugin("a").unwrap();
    assert!(manager.is_open("held.lib"));
    drop(held);
    assert!(manager.is_open("held.lib"));
    manager.unload_plugin("c").unwrap();
    assert!(!manager.is_open("held.lib"));
    assert!(!manager.is_open("other.lib"));
    assert_eq!(manager.kept_aside(), 0);
}

#[test]
fn unload_all_closes_the_library_of_a_plugin_that_was_let_go() {
    let mut manager: PluginManager<SoundEffectPlugin> = PluginManager::default();
    load_effects(&mut manager, "held.lib", &["a"]).unwrap();
    let held = manager.get("a").unwrap();
    manager.unload_all().unwrap();
    assert!(manager.is_empty());
    assert!(manager.is_open("held.lib"));
    drop(held);
    manager.unload_all().unwrap();
    assert!(!manager.is_open("held.lib"));
}

#[test]
fn sweep_lets_go_of_what_is_no_longer_held() {
    let mut manager: PluginManager<SoundEffectPlugin> = PluginManager::default();
    load_effects(&mut manager, "first.lib", &["a"]).unwrap();
    load_effects(&mut manager, "second.lib", &["b"]).unwrap();
    let a = manager.get("a").unwrap();
    let b = manager.get("b").unwrap();
    manager.unload_all().unwrap();
    assert_eq!(manager.kept_aside(), 2);

    drop(a);
    manager.sweep().unwrap();
    assert_eq!(manager.kept_aside(), 1);
    assert!(!manager.is_open("first.lib"));
    assert!(manager.is_open("second.lib"));
    assert_eq!(b.plugin_id(), "b");

    drop(b);
    manager.sweep().unwrap();
    assert_eq!(manager.kept_aside(), 0);
    assert!(!manager.is_open("second.lib"));
}

#[test]
fn let_go_goes_by_the_number_of_holders() {
    let mut manager: PluginManager<SoundEffectPlugin> = PluginManager::default();
    load_effects(&mut manager, "shared.lib", &["a", "b"]).unwrap();
    let (_, gone) = manager.unload_entry(0, 2);
    assert!(gone.is_none());
    let (_, gone) = manager.unload_entry(0, 1);
    assert!(gone.is_none());
    assert!(manager.is_empty());
    assert_eq!(manager.kept_aside(), 1);
    assert!(manager.is_open("shared.lib"));

    assert!(manager.let_go(0, 2).is_none());
    assert_eq!(manager.kept_aside(), 1);
    assert!(manager.is_open("shared.lib"));

    let gone = manager.let_go(0, 1);
    assert_eq!(gone.unwrap().file_name(), "shared.lib");
    assert_eq!(manager.kept_aside(), 0);
    assert!(!manager.is_open("shared.lib"));
}

#[test]
fn let_go_leaves_a_library_that_a_record_points_at() {
    let mut manager: PluginManager<SoundEffectPlugin> = PluginManager::default();
    load_effects(&mut manager, "shared.lib", &["a", "b"]).unwrap();
    let _ = manager.unload_entry(0, 2);
    assert!(manager.let_go(0, 1).is_none());
    assert_eq!(manager.kept_aside(), 0);
    assert_eq!(manager.len(), 1);
    assert!(manager.is_open("shared.lib"));
}

#[test]
fn library_that_registers_no_plugin_is_closed() {
    let mut manager: PluginManager<SoundEffectPlugin> = PluginManager::default();
    load_effects(&mut manager, "empty.lib", &[]).unwrap();
    assert!(manager.is_empty());
    assert!(!manager.is_open("empty.lib"));
}

#[test]
fn library_whose_first_plugin_fails_to_load_stays_open() {
    let mut manager: PluginManager<Moody> = PluginManager::default();
    let result = load_moody(&mut manager, "moody.lib", vec![Moody::new("a", false, true)]);
    assert!(result.is_err());
    assert!(manager.is_empty());
    assert!(manager.is_open("moody.lib"));
}

#[test]
fn identifier_registered_twice_by_one_library_leaves_one_record() {
    let mut manager: PluginManager<SoundEffectPlugin> = PluginManager::default();
    load_effects(&mut manager, "twice.lib", &["a", "a"]).unwrap();
    assert_eq!(manager.len(), 1);
    assert!(manager.is_open("twice.lib"));
    manager.unload_plugin("a").unwrap();
    assert!(manager.is_empty());
    assert!(!manager.is_open("twice.lib"));
}
