//! Platform identifiers, native handles and the view vocabulary shared
//! with the platform bridges.

use vstd::prelude::*;
use crate::text::str_eq;

verus! {

/// Platforms the engine can render on.
#[derive(Debug, Clone, Copy, PartialEq, Eq, Hash)]
pub enum PlatformId {
    Ios,
    Android,
    Macos,
    Windows,
    Web,
}

/// Opaque handle to a native view, assigned by a platform bridge.
#[derive(Debug, Clone, Copy, PartialEq, Eq, Hash)]
pub struct NativeHandle(pub u64);

/// View types the framework knows how to create.
#[derive(Debug, Clone, PartialEq, Eq, Hash)]
pub enum ViewType {
    Container,
    Text,
    TextInput,
    Image,
    ScrollView,
    Button,
    Switch,
    Slider,
    ActivityIndicator,
    DatePicker,
    Modal,
    BottomSheet,
    MenuBar,
    TitleBar,
    Custom(String),
}

/// Optional capabilities that a platform may offer.
#[derive(Debug, Clone, Copy, PartialEq, Eq, Hash)]
pub enum PlatformCapability {
    Haptics,
    Biometrics,
    MenuBar,
    SystemTray,
    MultiWindow,
    DragAndDrop,
    ContextMenu,
    NativeShare,
    PushNotifications,
    BackgroundFetch,
    NativeDatePicker,
    NativeFilePicker,
}

#[derive(Debug, Clone, Copy)]
pub enum FontWeight {
    Thin,
    Light,
    Regular,
    Medium,
    SemiBold,
    Bold,
    Heavy,
}

#[derive(Debug, Clone, Copy)]
pub enum TextAlign {
    Left,
    Center,
    Right,
    Justify,
}

/// Errors reported by a platform bridge.
#[derive(Debug)]
pub enum PlatformError {
    ViewNotFound(NativeHandle),
    UnsupportedViewType(ViewType),
    Native(String),
}

/// The capability a script names: "haptics", "biometrics", "menuBar",
/// "systemTray", "multiWindow", "dragAndDrop", "contextMenu", "nativeShare",
/// "pushNotifications", "backgroundFetch", "nativeDatePicker" or
/// "nativeFilePicker"; none for any other name.
pub open spec fn capability_named(name: Seq<char>) -> Option<PlatformCapability> {
    if name == "haptics"@ {
        Some(PlatformCapability::Haptics)
    } else if name == "biometrics"@ {
        Some(PlatformCapability::Biometrics)
    } else if name == "menuBar"@ {
        Some(PlatformCapability::MenuBar)
    } else if name == "systemTray"@ {
        Some(PlatformCapability::SystemTray)
    } else if name == "multiWindow"@ {
        Some(PlatformCapability::MultiWindow)
    } else if name == "dragAndDrop"@ {
        Some(PlatformCapability::DragAndDrop)
    } else if name == "contextMenu"@ {
        Some(PlatformCapability::ContextMenu)
    } else if name == "nativeShare"@ {
        Some(PlatformCapability::NativeShare)
    } else if name == "pushNotifications"@ {
        Some(PlatformCapability::PushNotifications)
    } else if name == "backgroundFetch"@ {
        Some(PlatformCapability::BackgroundFetch)
    } else if name == "nativeDatePicker"@ {
        Some(PlatformCapability::NativeDatePicker)
    } else if name == "nativeFilePicker"@ {
        Some(PlatformCapability::NativeFilePicker)
    } else {
        None
    }
}

impl PlatformCapability {
    /// The capability that a script refers to by `name`.
    pub fn from_name(name: &str) -> (r: Option<PlatformCapability>)
        ensures
            r == capability_named(name@),
    {
        if str_eq(name, "haptics") {
            Some(PlatformCapability::Haptics)
        } else if str_eq(name, "biometrics") {
            Some(PlatformCapability::Biometrics)
        } else if str_eq(name, "menuBar") {
            Some(PlatformCapability::MenuBar)
        } else if str_eq(name, "systemTray") {
            Some(PlatformCapability::SystemTray)
        } else if str_eq(name, "multiWindow") {
            Some(PlatformCapability::MultiWindow)
        } else if str_eq(name, "dragAndDrop") {
            Some(PlatformCapability::DragAndDrop)
        } else if str_eq(name, "contextMenu") {
            Some(PlatformCapability::ContextMenu)
        } else if str_eq(name, "nativeShare") {
            Some(PlatformCapability::NativeShare)
        } else if str_eq(name, "pushNotifications") {
            Some(PlatformCapability::PushNotifications)
        } else if str_eq(name, "backgroundFetch") {
            Some(PlatformCapability::BackgroundFetch)
        } else if str_eq(name, "nativeDatePicker") {
            Some(PlatformCapability::NativeDatePicker)
        } else if str_eq(name, "nativeFilePicker") {
            Some(PlatformCapability::NativeFilePicker)
        } else {
            None
        }
    }
}

/// The accessibility role that a synchronous lookup reports for a view type.
pub open spec fn sync_role_of(vt: ViewType) -> Seq<char> {
    match vt {
        ViewType::Button => "button"@,
        ViewType::Text => "text"@,
        ViewType::TextInput => "textField"@,
        ViewType::Image => "image"@,
        ViewType::Switch => "switch"@,
        ViewType::Slider => "adjustable"@,
        _ => "none"@,
    }
}

impl ViewType {
    /// The accessibility role reported for a node of this view type.
    pub fn sync_role(&self) -> (r: &'static str)
        ensures
            r@ == sync_role_of(*self),
    {
        match self {
            ViewType::Button => "button",
            ViewType::Text => "text",
            ViewType::TextInput => "textField",
            ViewType::Image => "image",
            ViewType::Switch => "switch",
            ViewType::Slider => "adjustable",
            _ => "none",
        }
    }
}

/// The weight a style names: "thin", "light", "regular", "medium",
/// "semibold", "bold" or "heavy"; none for any other name.
pub open spec fn weight_named(name: Seq<char>) -> Option<FontWeight> {
    if name == "thin"@ {
        Some(FontWeight::Thin)
    } else if name == "light"@ {
        Some(FontWeight::Light)
    } else if name == "regular"@ {
        Some(FontWeight::Regular)
    } else if name == "medium"@ {
        Some(FontWeight::Medium)
    } else if name == "semibold"@ {
        Some(FontWeight::SemiBold)
    } else if name == "bold"@ {
        Some(FontWeight::Bold)
    } else if name == "heavy"@ {
        Some(FontWeight::Heavy)
    } else {
        None
    }
}

impl FontWeight {
    /// The weight a style refers to by `name`.
    pub fn from_name(name: &str) -> (r: Option<FontWeight>)
        ensures
            r == weight_named(name@),
    {
        if str_eq(name, "thin") {
            Some(FontWeight::Thin)
        } else if str_eq(name, "light") {
            Some(FontWeight::Light)
        } else if str_eq(name, "regular") {
            Some(FontWeight::Regular)
        } else if str_eq(name, "medium") {
            Some(FontWeight::Medium)
        } else if str_eq(name, "semibold") {
            Some(FontWeight::SemiBold)
        } else if str_eq(name, "bold") {
            Some(FontWeight::Bold)
        } else if str_eq(name, "heavy") {
            Some(FontWeight::Heavy)
        } else {
            None
        }
    }
}

/// What `{:?}` makes of a string: the string in double quotes, with quotes,
/// backslashes and unprintable characters escaped.
pub uninterp spec fn debug_quoted(s: Seq<char>) -> Seq<char>;

/// Formats a string with `{:?}`; the result is named by `debug_quoted`.
#[verifier::external_body]
fn debug_quote(s: &str) -> (r: String)
    ensures
        r@ == debug_quoted(s@),
{
    format!("{:?}", s)
}

/// The debug name of a view type: its variant's name, and for a custom view
/// the quoted name of the view in brackets.
pub open spec fn view_type_name(vt: ViewType) -> Seq<char> {
    match vt {
        ViewType::Container => "Container"@,
        ViewType::Text => "Text"@,
        ViewType::TextInput => "TextInput"@,
        ViewType::Image => "Image"@,
        ViewType::ScrollView => "ScrollView"@,
        ViewType::Button => "Button"@,
        ViewType::Switch => "Switch"@,
        ViewType::Slider => "Slider"@,
        ViewType::ActivityIndicator => "ActivityIndicator"@,
        ViewType::DatePicker => "DatePicker"@,
        ViewType::Modal => "Modal"@,
        ViewType::BottomSheet => "BottomSheet"@,
        ViewType::MenuBar => "MenuBar"@,
        ViewType::TitleBar => "TitleBar"@,
        ViewType::Custom(name) => "Custom("@ + debug_quoted(name@) + ")"@,
    }
}

/// The debug name of a custom view whose name, quoted, is `quoted`.
pub fn custom_debug_name(quoted: &str) -> (r: String)
    ensures
        r@ == "Custom("@ + quoted@ + ")"@,
{
    let mut r = String::from_str("Custom(");
    r.append(quoted);
    r.append(")");
    r
}

impl ViewType {
    /// The debug name of this view type (see `view_type_name`).
    pub fn debug_name(&self) -> (r: String)
        ensures
            r@ == view_type_name(*self),
    {
        match self {
            ViewType::Container => String::from_str("Container"),
            ViewType::Text => String::from_str("Text"),
            ViewType::TextInput => String::from_str("TextInput"),
            ViewType::Image => String::from_str("Image"),
            ViewType::ScrollView => String::from_str("ScrollView"),
            ViewType::Button => String::from_str("Button"),
            ViewType::Switch => String::from_str("Switch"),
            ViewType::Slider => String::from_str("Slider"),
            ViewType::ActivityIndicator => String::from_str("ActivityIndicator"),
            ViewType::DatePicker => String::from_str("DatePicker"),
            ViewType::Modal => String::from_str("Modal"),
            ViewType::BottomSheet => String::from_str("BottomSheet"),
            ViewType::MenuBar => String::from_str("MenuBar"),
            ViewType::TitleBar => String::from_str("TitleBar"),
            ViewType::Custom(name) => {
                let quoted = debug_quote(name.as_str());
                custom_debug_name(quoted.as_str())
            },
        }
    }
}

} // verus!
