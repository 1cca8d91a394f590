use appscale_core::platform::{custom_debug_name, FontWeight, PlatformCapability, ViewType};

#[test]
fn capability_names() {
    assert_eq!(PlatformCapability::from_name("haptics"), Some(PlatformCapability::Haptics));
    assert_eq!(PlatformCapability::from_name("menuBar"), Some(PlatformCapability::MenuBar));
    assert_eq!(PlatformCapability::from_name("nativeFilePicker"), Some(PlatformCapability::NativeFilePicker));
    assert_eq!(PlatformCapability::from_name("Haptics"), None);
    assert_eq!(PlatformCapability::from_name(""), None);
}

#[test]
fn sync_roles() {
    assert_eq!(ViewType::Button.sync_role(), "button");
    assert_eq!(ViewType::TextInput.sync_role(), "textField");
    assert_eq!(ViewType::Slider.sync_role(), "adjustable");
    assert_eq!(ViewType::Container.sync_role(), "none");
    assert_eq!(ViewType::Custom("Map".into()).sync_role(), "none");
}

#[test]
fn font_weight_names() {
    assert!(matches!(FontWeight::from_name("semibold"), Some(FontWeight::SemiBold)));
    assert!(matches!(FontWeight::from_name("thin"), Some(FontWeight::Thin)));
    assert!(FontWeight::from_name("Bold").is_none());
    assert!(FontWeight::from_name("black").is_none());
}

#[test]
fn view_type_debug_names() {
    assert_eq!(ViewType::ScrollView.debug_name(), "ScrollView");
    assert_eq!(ViewType::TitleBar.debug_name(), "TitleBar");
    assert_eq!(ViewType::Custom("Map \"3D\"".to_string()).debug_name(), "Custom(\"Map \\\"3D\\\"\")");
    assert_eq!(custom_debug_name("\"x\""), "Custom(\"x\")");
    assert_eq!(ViewType::Custom("Camera".to_string()).debug_name(), format!("{:?}", ViewType::Custom("Camera".to_string())));
}
