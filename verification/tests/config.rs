use dygpi::config::PluginManagerConfiguration;
use dygpi::error::ErrorKind;
use dygpi::manager::PluginManager;
use dygpi::sound::SoundEffectPlugin;

fn sorted(mut names: Vec<String>) -> Vec<String> {
    names.sort();
    names
}

fn sample() -> PluginManagerConfiguration {
    let mut config = PluginManagerConfiguration::default();
    let _ = config.insert("sound", &["beep", "boop"]);
    let _ = config.insert("light", &["bright", "mood"]);
    config
}

#[test]
fn default_configuration_is_empty() {
    let config = PluginManagerConfiguration::default();
    assert!(config.is_empty());
    assert_eq!(config.len(), 0);
    assert!(config.plugin_types().is_empty());
    assert!(!config.contains_plugin_type("sound"));
    assert!(config.plugin_libraries_for_type("sound").is_none());
}

#[test]
fn inserted_types_are_found() {
    let config = sample();
    assert!(!config.is_empty());
    assert_eq!(config.len(), 2);
    assert_eq!(sorted(config.plugin_types()), vec!["light", "sound"]);
    assert!(config.contains_plugin_type("sound"));
    assert!(config.contains_plugin_type("light"));
    assert!(!config.contains_plugin_type("smell"));
    assert_eq!(
        sorted(config.plugin_libraries_for_type("sound").unwrap()),
        vec!["beep", "boop"]
    );
    assert_eq!(
        sorted(config.plugin_libraries_for_type("light").unwrap()),
        vec!["bright", "mood"]
    );
}

#[test]
fn insert_then_remove_returns_what_was_inserted() {
    let mut config = sample();
    let previous = config.insert("sound", &["click", "clack", "click"]);
    assert_eq!(sorted(previous.unwrap()), vec!["beep", "boop"]);
    assert_eq!(config.len(), 2);

    let removed = config.remove("sound");
    assert_eq!(sorted(removed.unwrap()), vec!["clack", "click"]);
    assert!(!config.contains_plugin_type("sound"));
    assert_eq!(config.len(), 1);
    assert!(config.remove("sound").is_none());
}

#[test]
fn insert_of_a_new_type_returns_nothing() {
    let mut config = PluginManagerConfiguration::default();
    assert!(config.insert("sound", &["beep"]).is_none());
    assert_eq!(config.plugin_libraries_for_type("sound").unwrap(), vec!["beep"]);
}

#[test]
fn merge_adds_to_an_entry_or_makes_one() {
    let mut config = sample();
    config.merge("sound", &["boop", "buzz"]);
    assert_eq!(
        sorted(config.plugin_libraries_for_type("sound").unwrap()),
        vec!["beep", "boop", "buzz"]
    );
    config.merge("smell", &["rose", "rose"]);
    assert_eq!(config.plugin_libraries_for_type("smell").unwrap(), vec!["rose"]);
    assert_eq!(config.len(), 3);
}

#[test]
fn manager_for_a_known_type_comes_with_its_libraries() {
    let config = sample();
    let (manager, libraries): (PluginManager<SoundEffectPlugin>, Vec<String>) =
        config.make_manager_for_type("sound").unwrap();
    assert!(manager.is_empty());
    assert_eq!(sorted(libraries), vec!["beep", "boop"]);
}

#[test]
fn manager_for_an_unknown_type_is_an_error() {
    let config = sample();
    let error = config
        .make_manager_for_type::<SoundEffectPlugin>("smell")
        .err()
        .unwrap();
    match error.kind() {
        ErrorKind::UnknownPluginManagerType(plugin_type) => assert_eq!(plugin_type, "smell"),
        kind => panic!("unexpected error {:?}", kind),
    }
    assert_eq!(error.message(), "No Configured plugins for type 'smell'");
}

#[test]
fn stored_lists_hold_at_least_one_library() {
    let mut config = sample();
    config.merge("smell", &["rose"]);
    for plugin_type in config.plugin_types() {
        assert!(!config.plugin_libraries_for_type(&plugin_type).unwrap().is_empty());
    }
    assert!(!config.insert("sound", &["click"]).unwrap().is_empty());
    assert!(!config.remove("light").unwrap().is_empty());
}

#[test]
fn manager_from_a_configuration_is_a_default_manager() {
    let config = sample();
    let (mut manager, _libraries): (PluginManager<SoundEffectPlugin>, Vec<String>) =
        config.make_manager_for_type("light").unwrap();
    let default: PluginManager<SoundEffectPlugin> = PluginManager::default();
    assert_eq!(manager.registration_fn_name(), default.registration_fn_name());
    assert_eq!(manager.library_path("passwd"), "passwd");
    let hash = dygpi::plugin::compatibility_hash(
        dygpi::plugin::PACKAGE_VERSION,
        dygpi::plugin::TOOLCHAIN_VERSION,
    );
    let handle = libloading::Library::from(libloading::os::unix::Library::this());
    let library = dygpi::library::open_outcome("self.lib".to_string(), Ok(handle)).unwrap();
    assert!(manager.check_compatibility(library, Ok(hash)).is_ok());
}
