use appscale_core::cloud::BuildTarget;
use appscale_core::plugins::{
    validate_descriptor, PluginCapability, PluginCategory, PluginDependency, PluginDescriptor, PluginError,
    PluginRegistry, PluginVersion,
};
use std::collections::HashMap;

fn test_descriptor(name: &str) -> PluginDescriptor {
    PluginDescriptor {
        name: name.into(),
        version: PluginVersion::new(1, 0, 0),
        description: format!("{name} plugin"),
        author: "test".into(),
        license: "MIT".into(),
        homepage: None,
        repository: None,
        category: PluginCategory::Platform,
        capabilities: vec![PluginCapability::NativeModule],
        supported_platforms: vec![BuildTarget::Ios, BuildTarget::Android, BuildTarget::Web],
        min_engine_version: PluginVersion::new(0, 1, 0),
        dependencies: vec![],
        js_package: None,
        keywords: vec!["test".into()],
    }
}

fn depends_on(mut desc: PluginDescriptor, name: &str) -> PluginDescriptor {
    desc.dependencies.push(PluginDependency { name: name.into(), min_version: PluginVersion::new(1, 0, 0) });
    desc
}

#[test]
fn test_plugin_version_comparison() {
    let v1 = PluginVersion::new(1, 0, 0);
    let v1_1 = PluginVersion::new(1, 1, 0);
    let v2 = PluginVersion::new(2, 0, 0);

    assert!(v1 < v1_1);
    assert!(v1_1 < v2);
    assert!(v1.satisfies_min(&v1));
    assert!(v1_1.satisfies_min(&v1));
    assert!(!v1.satisfies_min(&v2));
}

#[test]
fn test_plugin_version_display() {
    assert_eq!(PluginVersion::new(3, 2, 1).to_string(), "3.2.1");
}

#[test]
fn test_descriptor_platform_support() {
    let desc = test_descriptor("Camera");
    assert!(desc.supports_platform(&BuildTarget::Ios));
    assert!(!desc.supports_platform(&BuildTarget::Linux));
}

#[test]
fn test_descriptor_engine_compatibility() {
    let desc = test_descriptor("Test");
    assert!(desc.is_compatible_with_engine(&PluginVersion::new(1, 0, 0)));
    assert!(desc.is_compatible_with_engine(&PluginVersion::new(0, 1, 0)));
    assert!(!desc.is_compatible_with_engine(&PluginVersion::new(0, 0, 9)));
}

#[test]
fn test_descriptor_dependency_check() {
    let mut desc = test_descriptor("Dep");
    desc.dependencies.push(PluginDependency { name: "Core".into(), min_version: PluginVersion::new(1, 0, 0) });

    let mut installed = HashMap::new();
    assert_eq!(desc.check_dependencies(&installed), vec!["Core"]);

    installed.insert("Core".into(), PluginVersion::new(1, 0, 0));
    assert!(desc.check_dependencies(&installed).is_empty());
}

#[test]
fn test_validate_descriptor_ok() {
    let desc = test_descriptor("Valid");
    assert!(validate_descriptor(&desc).is_ok());
}

#[test]
fn test_validate_descriptor_empty_name() {
    let mut desc = test_descriptor("");
    desc.name = String::new();
    assert!(validate_descriptor(&desc).is_err());
}

#[test]
fn test_validate_descriptor_no_platforms() {
    let mut desc = test_descriptor("NoPlatform");
    desc.supported_platforms.clear();
    assert!(validate_descriptor(&desc).is_err());
}

#[test]
fn test_install_plugin_without_module() {
    let mut registry = PluginRegistry::new(PluginVersion::new(1, 0, 0));
    let desc = test_descriptor("Analytics");
    assert!(registry.install(desc, None).is_ok());
    assert!(registry.is_installed("Analytics"));
    assert_eq!(registry.count(), 1);
}

#[test]
fn test_install_plugin_with_module() {
    let mut registry = PluginRegistry::new(PluginVersion::new(1, 0, 0));
    let desc = test_descriptor("Camera");
    assert!(registry.install(desc, Some("Camera".to_string())).is_ok());
    assert!(registry.has_module("Camera"));
}

#[test]
fn test_install_duplicate_rejected() {
    let mut registry = PluginRegistry::new(PluginVersion::new(1, 0, 0));
    assert!(registry.install(test_descriptor("Dup"), None).is_ok());
    assert!(registry.install(test_descriptor("Dup"), None).is_err());
}

#[test]
fn test_install_incompatible_engine_rejected() {
    let mut registry = PluginRegistry::new(PluginVersion::new(0, 0, 1));
    let mut desc = test_descriptor("New");
    desc.min_engine_version = PluginVersion::new(2, 0, 0);
    assert!(registry.install(desc, None).is_err());
}

#[test]
fn test_install_missing_dependency_rejected() {
    let mut registry = PluginRegistry::new(PluginVersion::new(1, 0, 0));
    let desc = depends_on(test_descriptor("Child"), "Parent");
    assert!(registry.install(desc, None).is_err());
}

#[test]
fn test_install_with_satisfied_dependency() {
    let mut registry = PluginRegistry::new(PluginVersion::new(1, 0, 0));
    assert!(registry.install(test_descriptor("Parent"), None).is_ok());
    let child = depends_on(test_descriptor("Child"), "Parent");
    assert!(registry.install(child, None).is_ok());
}

#[test]
fn test_uninstall_plugin() {
    let mut registry = PluginRegistry::new(PluginVersion::new(1, 0, 0));
    registry.install(test_descriptor("Removable"), None).unwrap();
    assert!(registry.uninstall("Removable").is_ok());
    assert!(!registry.is_installed("Removable"));
}

#[test]
fn test_uninstall_depended_on_fails() {
    let mut registry = PluginRegistry::new(PluginVersion::new(1, 0, 0));
    registry.install(test_descriptor("Base"), None).unwrap();
    let child = depends_on(test_descriptor("Extension"), "Base");
    registry.install(child, None).unwrap();

    assert!(registry.uninstall("Base").is_err());
    assert!(registry.is_installed("Base"));
}

#[test]
fn test_enable_disable() {
    let mut registry = PluginRegistry::new(PluginVersion::new(1, 0, 0));
    registry.install(test_descriptor("Toggle"), None).unwrap();

    assert_eq!(registry.enabled_plugins().len(), 1);
    registry.set_enabled("Toggle", false).unwrap();
    assert_eq!(registry.enabled_plugins().len(), 0);
    registry.set_enabled("Toggle", true).unwrap();
    assert_eq!(registry.enabled_plugins().len(), 1);
}

#[test]
fn test_search_by_name() {
    let mut registry = PluginRegistry::new(PluginVersion::new(1, 0, 0));
    registry.install(test_descriptor("Camera"), None).unwrap();
    registry.install(test_descriptor("Storage"), None).unwrap();
    registry.install(test_descriptor("CameraRoll"), None).unwrap();

    let results = registry.search("camera");
    assert_eq!(results.len(), 2);
}

#[test]
fn test_search_by_keyword() {
    let mut registry = PluginRegistry::new(PluginVersion::new(1, 0, 0));
    let mut desc = test_descriptor("Tracker");
    desc.keywords.push("analytics".into());
    registry.install(desc, None).unwrap();

    let results = registry.search("analytics");
    assert_eq!(results.len(), 1);
    assert_eq!(results[0].name, "Tracker");
}

#[test]
fn test_filter_by_category() {
    let mut registry = PluginRegistry::new(PluginVersion::new(1, 0, 0));

    let mut ui_plugin = test_descriptor("Button");
    ui_plugin.category = PluginCategory::UI;
    registry.install(ui_plugin, None).unwrap();

    let mut data_plugin = test_descriptor("SQLite");
    data_plugin.category = PluginCategory::Data;
    registry.install(data_plugin, None).unwrap();

    assert_eq!(registry.by_category(&PluginCategory::UI).len(), 1);
    assert_eq!(registry.by_category(&PluginCategory::Data).len(), 1);
    assert_eq!(registry.by_category(&PluginCategory::Auth).len(), 0);
}

#[test]
fn test_filter_by_platform() {
    let mut registry = PluginRegistry::new(PluginVersion::new(1, 0, 0));

    let mut ios_only = test_descriptor("ARKit");
    ios_only.supported_platforms = vec![BuildTarget::Ios];
    registry.install(ios_only, None).unwrap();

    registry.install(test_descriptor("Universal"), None).unwrap();

    assert_eq!(registry.by_platform(&BuildTarget::Ios).len(), 2);
    assert_eq!(registry.by_platform(&BuildTarget::Android).len(), 1);
}

#[test]
fn test_filter_by_capability() {
    let mut registry = PluginRegistry::new(PluginVersion::new(1, 0, 0));

    let mut theme_plugin = test_descriptor("DarkMode");
    theme_plugin.capabilities = vec![PluginCapability::Theme];
    registry.install(theme_plugin, None).unwrap();

    registry.install(test_descriptor("Module"), None).unwrap();

    assert_eq!(registry.by_capability(&PluginCapability::Theme).len(), 1);
    assert_eq!(registry.by_capability(&PluginCapability::NativeModule).len(), 1);
}

#[test]
fn install_error_kinds_and_messages() {
    let mut registry = PluginRegistry::new(PluginVersion::new(1, 0, 0));
    let mut bad = test_descriptor("X");
    bad.description = String::new();
    assert!(matches!(registry.install(bad, None), Err(PluginError::Internal(m)) if m == "Plugin description is required"));

    let mut newer = test_descriptor("New");
    newer.min_engine_version = PluginVersion::new(2, 0, 0);
    assert!(matches!(registry.install(newer, None),
        Err(PluginError::IncompatibleEngine { plugin, required, current })
            if plugin == "New" && required == "2.0.0" && current == "1.0.0"));

    registry.install(test_descriptor("Dup"), None).unwrap();
    assert!(matches!(registry.install(test_descriptor("Dup"), None),
        Err(PluginError::AlreadyInstalled(n, v)) if n == "Dup" && v == "1.0.0"));

    let child = depends_on(depends_on(test_descriptor("Child"), "A"), "B");
    assert!(matches!(registry.install(child, None),
        Err(PluginError::MissingDependency { plugin, dependency }) if plugin == "Child" && dependency == "A, B"));

    registry.install(test_descriptor("Cam"), Some("CamModule".to_string())).unwrap();
    assert!(matches!(registry.install(test_descriptor("Cam2"), Some("CamModule".to_string())),
        Err(PluginError::ModuleError(_))));
    assert!(!registry.is_installed("Cam2"));
}

#[test]
fn uninstall_errors() {
    let mut registry = PluginRegistry::new(PluginVersion::new(1, 0, 0));
    assert!(matches!(registry.uninstall("Ghost"), Err(PluginError::NotFound(n)) if n == "Ghost"));
    registry.install(test_descriptor("Base"), None).unwrap();
    registry.install(depends_on(test_descriptor("Ext"), "Base"), None).unwrap();
    assert!(matches!(registry.uninstall("Base"),
        Err(PluginError::Internal(m)) if m == "Cannot uninstall 'Base': required by 'Ext'"));
    assert!(matches!(registry.set_enabled("Ghost", true), Err(PluginError::NotFound(_))));
}

#[test]
fn uninstall_undoes_install() {
    let mut registry = PluginRegistry::new(PluginVersion::new(1, 0, 0));
    registry.install(test_descriptor("Keep"), None).unwrap();
    let before = registry.installed_names();
    registry.install(test_descriptor("Camera"), Some("Camera".to_string())).unwrap();
    assert!(registry.has_module("Camera"));
    registry.uninstall("Camera").unwrap();
    assert_eq!(registry.installed_names(), before);
    assert!(!registry.has_module("Camera"));
}

#[test]
fn search_is_case_insensitive_on_description() {
    let mut registry = PluginRegistry::new(PluginVersion::new(1, 0, 0));
    let mut desc = test_descriptor("Maps");
    desc.description = "Shows a WORLD map".into();
    registry.install(desc, None).unwrap();
    assert_eq!(registry.search("world").len(), 1);
    assert_eq!(registry.search("WoRlD").len(), 1);
    assert_eq!(registry.search("ocean").len(), 0);
}

#[test]
fn get_descriptor_by_name() {
    let mut registry = PluginRegistry::new(PluginVersion::new(1, 0, 0));
    registry.install(test_descriptor("Found"), None).unwrap();
    assert_eq!(registry.get_descriptor("Found").unwrap().name, "Found");
    assert!(registry.get_descriptor("Lost").is_none());
}
