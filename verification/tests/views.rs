use appscale_core::platform::{NativeHandle, PlatformCapability, ViewType};
use appscale_core::tree::NodeId;
use appscale_core::views::{android_supports, macos_supports, web_supports, windows_supports, ViewRegistry};

fn create_and_remove(second: ViewType) {
    let mut views = ViewRegistry::new();
    let h1 = views.create_view(ViewType::Container, NodeId(1));
    let h2 = views.create_view(second, NodeId(2));
    assert_eq!(views.view_count(), 2);

    views.insert_child(h1, h2, 0);
    views.remove_child(h1, h2);
    views.remove_view(h2);
    assert_eq!(views.view_count(), 1);
}

#[test]
fn test_android_create_and_remove() {
    create_and_remove(ViewType::Button);
}

#[test]
fn test_macos_create_and_remove() {
    create_and_remove(ViewType::Text);
}

#[test]
fn test_windows_create_and_remove() {
    create_and_remove(ViewType::Button);
}

#[test]
fn test_web_create_and_remove() {
    let mut views = ViewRegistry::new();
    let h1 = views.create_view(ViewType::Container, NodeId(1));
    let h2 = views.create_view(ViewType::Text, NodeId(2));
    let h3 = views.create_view(ViewType::Image, NodeId(3));
    assert_eq!(views.view_count(), 3);

    views.insert_child(h1, h2, 0);
    views.insert_child(h1, h3, 1);
    views.remove_child(h1, h2);
    views.remove_view(h2);
    assert_eq!(views.view_count(), 2);
}

fn update_missing_view() {
    let mut views = ViewRegistry::new();
    views.create_view(ViewType::Container, NodeId(1));
    assert!(!views.contains(NativeHandle(999)));
}

#[test]
fn test_android_update_missing_view() {
    update_missing_view();
}

#[test]
fn test_macos_update_missing_view() {
    update_missing_view();
}

#[test]
fn test_web_update_missing_view() {
    update_missing_view();
}

#[test]
fn test_windows_update_missing_view() {
    update_missing_view();
}

#[test]
fn handles_are_given_in_order_and_never_reused() {
    let mut views = ViewRegistry::new();
    let h1 = views.create_view(ViewType::Text, NodeId(1));
    assert_eq!(h1, NativeHandle(1));
    views.remove_view(h1);
    let h2 = views.create_view(ViewType::Text, NodeId(1));
    assert_eq!(h2, NativeHandle(2));
    assert_eq!(views.next_handle(), 3);
    assert!(views.contains(h2));
    assert!(!views.contains(h1));
}

#[test]
fn children_ops_on_missing_parent_do_nothing() {
    let mut views = ViewRegistry::new();
    let h = views.create_view(ViewType::Container, NodeId(1));
    views.insert_child(NativeHandle(42), h, 0);
    views.remove_child(NativeHandle(42), h);
    assert_eq!(views.view_count(), 1);
}

#[test]
fn test_android_capabilities() {
    assert!(android_supports(PlatformCapability::Haptics));
    assert!(android_supports(PlatformCapability::Biometrics));
    assert!(android_supports(PlatformCapability::PushNotifications));
    assert!(android_supports(PlatformCapability::BackgroundFetch));
    assert!(android_supports(PlatformCapability::NativeShare));
    assert!(!android_supports(PlatformCapability::MenuBar));
    assert!(!android_supports(PlatformCapability::SystemTray));
    assert!(!android_supports(PlatformCapability::MultiWindow));
}

#[test]
fn test_macos_capabilities() {
    assert!(macos_supports(PlatformCapability::MenuBar));
    assert!(macos_supports(PlatformCapability::MultiWindow));
    assert!(macos_supports(PlatformCapability::DragAndDrop));
    assert!(!macos_supports(PlatformCapability::Haptics));
    assert!(!macos_supports(PlatformCapability::Biometrics));
}

#[test]
fn test_web_capabilities() {
    assert!(web_supports(PlatformCapability::DragAndDrop));
    assert!(web_supports(PlatformCapability::NativeShare));
    assert!(web_supports(PlatformCapability::ContextMenu));
    assert!(web_supports(PlatformCapability::NativeFilePicker));
    assert!(!web_supports(PlatformCapability::Haptics));
    assert!(!web_supports(PlatformCapability::Biometrics));
    assert!(!web_supports(PlatformCapability::MenuBar));
    assert!(!web_supports(PlatformCapability::SystemTray));
    assert!(!web_supports(PlatformCapability::PushNotifications));
}

#[test]
fn test_windows_capabilities() {
    assert!(windows_supports(PlatformCapability::SystemTray));
    assert!(windows_supports(PlatformCapability::MultiWindow));
    assert!(windows_supports(PlatformCapability::DragAndDrop));
    assert!(windows_supports(PlatformCapability::PushNotifications));
    assert!(!windows_supports(PlatformCapability::MenuBar));
    assert!(!windows_supports(PlatformCapability::Haptics));
}
