use appscale_core::components::{builtin_component, builtin_component_names, resolve_view_type, ChildrenMode};
use appscale_core::platform::ViewType;

fn mode(name: &str) -> ChildrenMode {
    builtin_component(name).unwrap().1
}

fn view(name: &str) -> ViewType {
    builtin_component(name).unwrap().0
}

#[test]
fn test_registry_has_all_components() {
    assert_eq!(builtin_component_names().len(), 24);
    for name in builtin_component_names() {
        assert!(builtin_component(name).is_some(), "{name}");
    }
}

#[test]
fn test_core_primitives_registered() {
    for name in ["View", "Text", "Image", "ScrollView", "TextInput"] {
        assert!(builtin_component(name).is_some());
    }
}

#[test]
fn test_view_type_mapping() {
    assert_eq!(resolve_view_type("View"), Some(ViewType::Container));
    assert_eq!(resolve_view_type("Text"), Some(ViewType::Text));
    assert_eq!(resolve_view_type("Image"), Some(ViewType::Image));
    assert_eq!(resolve_view_type("Button"), Some(ViewType::Button));
    assert_eq!(resolve_view_type("Switch"), Some(ViewType::Switch));
    assert_eq!(resolve_view_type("Modal"), Some(ViewType::Modal));
}

#[test]
fn test_children_mode() {
    assert_eq!(mode("View"), ChildrenMode::Container);
    assert_eq!(mode("Text"), ChildrenMode::TextOnly);
    assert_eq!(mode("Image"), ChildrenMode::Leaf);
    assert_eq!(mode("ActivityIndicator"), ChildrenMode::Leaf);
    assert_eq!(mode("ScrollView"), ChildrenMode::Container);
    assert_eq!(mode("Button"), ChildrenMode::TextOnly);
}

#[test]
fn test_component_names_sorted() {
    let names = builtin_component_names();
    assert!(names.len() == 24);
    let mut sorted = names.clone();
    sorted.sort();
    assert_eq!(names, sorted);
}

#[test]
fn test_unknown_component() {
    assert!(builtin_component("NonExistent").is_none());
    assert_eq!(resolve_view_type("NonExistent"), None);
    assert_eq!(resolve_view_type("view"), None);
    assert_eq!(resolve_view_type(""), None);
}

#[test]
fn test_list_components() {
    assert_eq!(view("FlatList"), ViewType::ScrollView);
    assert_eq!(mode("FlatList"), ChildrenMode::Container);
    assert_eq!(view("SectionList"), ViewType::ScrollView);
}

#[test]
fn test_navigation_components() {
    for name in ["StackNavigator", "TabNavigator", "DrawerNavigator"] {
        assert_eq!(view(name), ViewType::Container);
        assert_eq!(mode(name), ChildrenMode::Container);
    }
}

#[test]
fn test_media_components() {
    assert_eq!(view("Video"), ViewType::Custom("Video".into()));
    assert_eq!(mode("Video"), ChildrenMode::Leaf);
    assert_eq!(view("Camera"), ViewType::Custom("Camera".into()));
    assert_eq!(view("WebView"), ViewType::Custom("WebView".into()));
    assert_eq!(view("Picker"), ViewType::Custom("Picker".into()));
}
