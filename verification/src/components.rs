//! The built-in component catalogue: which native view each component name
//! creates, and how the component treats its children.

use vstd::prelude::*;
use crate::platform::ViewType;
use crate::text::str_eq;
use ChildrenMode::{Container, Leaf, TextOnly};

verus! {

/// How a component handles children.
#[derive(Debug, Clone, Copy, PartialEq, Eq)]
pub enum ChildrenMode {
    /// Accepts child components (e.g., View, ScrollView).
    Container,
    /// Leaf node — no children allowed (e.g., Image, ActivityIndicator).
    Leaf,
    /// Accepts only text children (e.g., Text, TextInput).
    TextOnly,
}

/// `vt` is the custom view type named `name`.
pub open spec fn is_custom(vt: ViewType, name: Seq<char>) -> bool {
    vt matches ViewType::Custom(s) && s@ == name
}

/// What the built-in component `name` is made of, when it is one: the view it
/// creates and how it treats children.
pub open spec fn builtin_spec(name: Seq<char>, vt: ViewType, mode: ChildrenMode) -> bool {
    if name == "View"@ {
        vt == ViewType::Container && mode == Container
    } else if name == "Text"@ {
        vt == ViewType::Text && mode == TextOnly
    } else if name == "Image"@ {
        vt == ViewType::Image && mode == Leaf
    } else if name == "ScrollView"@ {
        vt == ViewType::ScrollView && mode == Container
    } else if name == "TextInput"@ {
        vt == ViewType::TextInput && mode == Leaf
    } else if name == "FlatList"@ || name == "SectionList"@ {
        vt == ViewType::ScrollView && mode == Container
    } else if name == "StackNavigator"@ || name == "TabNavigator"@ || name == "DrawerNavigator"@ {
        vt == ViewType::Container && mode == Container
    } else if name == "Switch"@ {
        vt == ViewType::Switch && mode == Leaf
    } else if name == "Slider"@ {
        vt == ViewType::Slider && mode == Leaf
    } else if name == "Picker"@ {
        is_custom(vt, "Picker"@) && mode == Leaf
    } else if name == "DatePicker"@ {
        vt == ViewType::DatePicker && mode == Leaf
    } else if name == "Button"@ {
        vt == ViewType::Button && mode == TextOnly
    } else if name == "Pressable"@ || name == "TouchableOpacity"@ {
        vt == ViewType::Container && mode == Container
    } else if name == "ActivityIndicator"@ {
        vt == ViewType::ActivityIndicator && mode == Leaf
    } else if name == "SafeAreaView"@ || name == "KeyboardAvoidingView"@ {
        vt == ViewType::Container && mode == Container
    } else if name == "Modal"@ {
        vt == ViewType::Modal && mode == Container
    } else if name == "Video"@ || name == "Camera"@ || name == "WebView"@ {
        is_custom(vt, name) && mode == Leaf
    } else {
        false
    }
}

/// The names of the built-in components, in alphabetical order.
pub open spec fn builtin_names() -> Seq<Seq<char>> {
    seq![
        "ActivityIndicator"@, "Button"@, "Camera"@, "DatePicker"@, "DrawerNavigator"@,
        "FlatList"@, "Image"@, "KeyboardAvoidingView"@, "Modal"@, "Picker"@, "Pressable"@,
        "SafeAreaView"@, "ScrollView"@, "SectionList"@, "Slider"@, "StackNavigator"@,
        "Switch"@, "TabNavigator"@, "Text"@, "TextInput"@, "TouchableOpacity"@, "Video"@,
        "View"@, "WebView"@,
    ]
}

fn custom(name: &str) -> (vt: ViewType)
    ensures
        is_custom(vt, name@),
{
    ViewType::Custom(String::from_str(name))
}

/// The view and children mode of the built-in component `name`, or `None`
/// when no built-in component has that name.
pub fn builtin_component(name: &str) -> (r: Option<(ViewType, ChildrenMode)>)
    ensures
        match r {
            Some((vt, mode)) => builtin_spec(name@, vt, mode),
            None => forall|vt: ViewType, mode: ChildrenMode| !builtin_spec(name@, vt, mode),
        },
{
    if str_eq(name, "View") {
        Some((ViewType::Container, Container))
    } else if str_eq(name, "Text") {
        Some((ViewType::Text, TextOnly))
    } else if str_eq(name, "Image") {
        Some((ViewType::Image, Leaf))
    } else if str_eq(name, "ScrollView") {
        Some((ViewType::ScrollView, Container))
    } else if str_eq(name, "TextInput") {
        Some((ViewType::TextInput, Leaf))
    } else if str_eq(name, "FlatList") || str_eq(name, "SectionList") {
        Some((ViewType::ScrollView, Container))
    } else if str_eq(name, "StackNavigator") || str_eq(name, "TabNavigator") || str_eq(
        name,
        "DrawerNavigator",
    ) {
        Some((ViewType::Container, Container))
    } else if str_eq(name, "Switch") {
        Some((ViewType::Switch, Leaf))
    } else if str_eq(name, "Slider") {
        Some((ViewType::Slider, Leaf))
    } else if str_eq(name, "Picker") {
        Some((custom("Picker"), Leaf))
    } else if str_eq(name, "DatePicker") {
        Some((ViewType::DatePicker, Leaf))
    } else if str_eq(name, "Button") {
        Some((ViewType::Button, TextOnly))
    } else if str_eq(name, "Pressable") || str_eq(name, "TouchableOpacity") {
        Some((ViewType::Container, Container))
    } else if str_eq(name, "ActivityIndicator") {
        Some((ViewType::ActivityIndicator, Leaf))
    } else if str_eq(name, "SafeAreaView") || str_eq(name, "KeyboardAvoidingView") {
        Some((ViewType::Container, Container))
    } else if str_eq(name, "Modal") {
        Some((ViewType::Modal, Container))
    } else if str_eq(name, "Video") || str_eq(name, "Camera") || str_eq(name, "WebView") {
        Some((custom(name), Leaf))
    } else {
        None
    }
}

/// Resolve a component name to the view it creates.
pub fn resolve_view_type(name: &str) -> (r: Option<ViewType>)
    ensures
        match r {
            Some(vt) => exists|mode: ChildrenMode| builtin_spec(name@, vt, mode),
            None => forall|vt: ViewType, mode: ChildrenMode| !builtin_spec(name@, vt, mode),
        },
{
    match builtin_component(name) {
        Some((vt, _)) => Some(vt),
        None => None,
    }
}

/// The names of all built-in components, in alphabetical order.
pub fn builtin_component_names() -> (r: Vec<&'static str>)
    ensures
        r@.map_values(|s: &str| s@) == builtin_names(),
{
    let v: Vec<&'static str> = vec![
        "ActivityIndicator", "Button", "Camera", "DatePicker", "DrawerNavigator",
        "FlatList", "Image", "KeyboardAvoidingView", "Modal", "Picker", "Pressable",
        "SafeAreaView", "ScrollView", "SectionList", "Slider", "StackNavigator",
        "Switch", "TabNavigator", "Text", "TextInput", "TouchableOpacity", "Video",
        "View", "WebView",
    ];
    assert(v@.map_values(|s: &str| s@) =~= builtin_names());
    v
}

} // verus!
