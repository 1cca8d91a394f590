use appscale_core::cli::{build_profile, native_crate_name, rust_target, title_in_source, validate_platform};
use appscale_core::cli::templates::{
    compact_lowercase_string, dashed_lowercase_string, generate_android_activity, generate_android_build_gradle,
    generate_android_layout, generate_android_manifest, generate_app_tsx, generate_info_plist,
    generate_ios_info_plist, generate_ios_pbxproj, generate_ios_swift_host, generate_macos_swift_host,
    generate_native_cargo_toml, generate_project_readme, generate_web_html, generate_windows_build_script,
    generate_windows_main, ios_bundle_id_string, underscored_string,
};

#[test]
fn build_valid_platforms() {
    assert!(validate_platform("ios").is_ok());
    assert!(validate_platform("android").is_ok());
    assert!(validate_platform("web").is_ok());
    assert!(validate_platform("macos").is_ok());
    assert!(validate_platform("windows").is_ok());
}

#[test]
fn build_invalid_platform() {
    assert!(validate_platform("linux").is_err());
    assert!(validate_platform("tizen").is_err());
}

#[test]
fn dev_valid_platforms() {
    assert!(validate_platform("ios").is_ok());
    assert!(validate_platform("android").is_ok());
    assert!(validate_platform("web").is_ok());
    assert!(validate_platform("macos").is_ok());
    assert!(validate_platform("windows").is_ok());
}

#[test]
fn dev_invalid_platform() {
    assert!(validate_platform("linux").is_err());
    assert!(validate_platform("").is_err());
}

#[test]
fn invalid_platform_message() {
    let e = validate_platform("linux").unwrap_err();
    assert_eq!(e.message, "Unknown platform 'linux'. Supported: ios, android, web, macos, windows");
}

#[test]
fn build_config_profile() {
    assert_eq!(build_profile(false), "debug");
    assert_eq!(build_profile(true), "release");
}

#[test]
fn build_config_targets() {
    let platforms = vec![
        ("ios", "aarch64-apple-ios"),
        ("android", "aarch64-linux-android"),
        ("web", "wasm32-unknown-unknown"),
        ("macos", "aarch64-apple-darwin"),
        ("windows", "x86_64-pc-windows-msvc"),
    ];
    for (platform, expected_target) in platforms {
        assert_eq!(rust_target(platform, false), expected_target);
    }
    assert_eq!(rust_target("ios", true), "aarch64-apple-ios-sim");
    assert_eq!(rust_target("linux", false), "unknown");
}

#[test]
fn info_plist_generation() {
    let plist = generate_info_plist("TestApp", "1.0.0");
    assert!(plist.contains("TestApp"));
    assert!(plist.contains("1.0.0"));
    assert!(plist.contains("com.appscale.testapp"));
}

#[test]
fn web_html_generation() {
    let html = generate_web_html("MyApp", "My App Title");
    assert!(html.contains("MyApp"));
    assert!(html.contains("My App Title"));
    assert!(html.contains("engine.wasm"));
}

#[test]
fn identifiers_derived_from_the_name() {
    assert_eq!(dashed_lowercase_string("My Cool App"), "my-cool-app");
    assert_eq!(compact_lowercase_string("My Cool-App"), "mycoolapp");
    assert_eq!(underscored_string("my-app"), "my_app");
    assert_eq!(ios_bundle_id_string("Demo App"), "com.appscale.demo-app");
}

#[test]
fn templates_fill_in_the_name() {
    let script = generate_windows_build_script("Demo");
    assert_eq!(
        script,
        "@echo off\nREM Build Demo for Windows\nREM Requires Visual Studio Build Tools (cl.exe on PATH)\ncl main.c /Fe:Demo.exe /link user32.lib gdi32.lib\necho.\necho Build complete: Demo.exe\n"
    );
    assert!(generate_android_activity("my-app").contains("System.loadLibrary(\"my_app\");"));
    assert!(generate_android_build_gradle("My App").contains("applicationId \"com.appscale.myapp\""));
    assert!(generate_ios_pbxproj("My App").contains("PRODUCT_BUNDLE_IDENTIFIER = \"com.appscale.my-app\";"));
    assert!(generate_android_layout("Demo").contains("android:text=\"Welcome to Demo\""));
    assert!(generate_app_tsx("Demo").contains("Welcome to Demo"));
    assert!(generate_native_cargo_toml("demo").starts_with("[package]\nname = \"demo-native\""));
    assert!(generate_native_cargo_toml("demo").contains("appscale-core = { path = \"../../rust-core\" }"));
    assert!(generate_project_readme("demo").starts_with("# demo\n"));
    assert!(generate_macos_swift_host("Demo", "Title").contains("window.title = \"Title\""));
    assert!(generate_ios_swift_host("Demo").contains("label.text = \"Welcome to Demo\""));
    assert!(generate_windows_main("Demo").contains("TEXT(\"Welcome to Demo\")"));
    assert!(generate_android_manifest("Demo").contains("android:label=\"Demo\""));
    assert!(generate_ios_info_plist("Demo", "com.x.demo", "2.0").contains("<string>com.x.demo</string>"));
}

#[test]
fn window_title_from_app_source() {
    let app = generate_app_tsx("Demo App");
    assert_eq!(title_in_source(&app), Some("Demo App".to_string()));
    assert_eq!(title_in_source("<Text>Welcome to  Spaced  </Text>"), Some("Spaced".to_string()));
    assert_eq!(title_in_source("Welcome to \"quoted\""), Some("".to_string()));
    assert_eq!(title_in_source("no greeting here"), None);
    assert_eq!(title_in_source("Welcome to the end"), None);
    assert_eq!(title_in_source("Welcome to A\nWelcome to B\n"), Some("A".to_string()));
}

#[test]
fn crate_name_from_manifest() {
    assert_eq!(native_crate_name(&generate_native_cargo_toml("my-app")), "my_app_native");
    assert_eq!(native_crate_name("[package]\nname = \"core-lib\"\r\nversion = \"1\""), "core_lib");
    assert_eq!(native_crate_name("[package]\nversion = \"1\"\n"), "native");
    assert_eq!(native_crate_name("name_without_quotes\nname = \"later\""), "native");
    assert_eq!(native_crate_name("name = \"unterminated"), "unterminated");
    assert_eq!(native_crate_name(""), "native");
}

#[test]
fn title_trims_unicode_white_space() {
    assert_eq!(title_in_source("Welcome to \u{3000}\u{a0}Wide\u{2003}\t\n"), Some("Wide".to_string()));
}
