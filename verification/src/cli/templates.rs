//! The files the tool writes: each platform's property lists, host
//! programs, project files and build scripts, and the starter files of a new
//! project, filled in with the app's name.

use vstd::prelude::*;
use crate::text::{lowercase, remove_chars, replace_char, replaced, to_lower, without_chars};

verus! {

/// The app's name in lower case with spaces turned into dashes, as bundle
/// identifiers use it.
pub open spec fn dashed_lowercase(name: Seq<char>) -> Seq<char> {
    replaced(lowercase(name), ' ', '-')
}

pub fn dashed_lowercase_string(name: &str) -> (r: String)
    ensures
        r@ == dashed_lowercase(name@),
{
    let lower = to_lower(name);
    proof {
        reveal_strlit("-");
    }
    replace_char(lower.as_str(), ' ', "-")
}

/// The app's name in lower case without spaces or dashes, as Android
/// application ids use it.
pub open spec fn compact_lowercase(name: Seq<char>) -> Seq<char> {
    without_chars(lowercase(name), ' ', '-')
}

pub fn compact_lowercase_string(name: &str) -> (r: String)
    ensures
        r@ == compact_lowercase(name@),
{
    let lower = to_lower(name);
    remove_chars(lower.as_str(), ' ', '-')
}

/// The app's name with dashes turned into underscores, as native library
/// names use it.
pub open spec fn underscored(name: Seq<char>) -> Seq<char> {
    replaced(name, '-', '_')
}

pub fn underscored_string(name: &str) -> (r: String)
    ensures
        r@ == underscored(name@),
{
    proof {
        reveal_strlit("_");
    }
    replace_char(name, '-', "_")
}

/// The bundle identifier of the iOS app: "com.appscale." and the dashed
/// lower-case name.
pub open spec fn ios_bundle_id(name: Seq<char>) -> Seq<char> {
    "com.appscale."@ + dashed_lowercase(name)
}

pub fn ios_bundle_id_string(name: &str) -> (r: String)
    ensures
        r@ == ios_bundle_id(name@),
{
    let id = dashed_lowercase_string(name);
    let mut r = String::from_str("com.appscale.");
    r.append(id.as_str());
    r
}

pub const IOS_INFO_PLIST_A: &'static str = r#"<?xml version="1.0" encoding="UTF-8"?>
<!DOCTYPE plist PUBLIC "-//Apple//DTD PLIST 1.0//EN"
  "http://www.apple.com/DTDs/PropertyList-1.0.dtd">
<plist version="1.0">
<dict>
    <key>CFBundleName</key>
    <string>"#;

pub const IOS_INFO_PLIST_B: &'static str = r#"</string>
    <key>CFBundleDisplayName</key>
    <string>"#;

pub const IOS_INFO_PLIST_C: &'static str = r#"</string>
    <key>CFBundleIdentifier</key>
    <string>"#;

pub const IOS_INFO_PLIST_D: &'static str = r#"</string>
    <key>CFBundleVersion</key>
    <string>"#;

pub const IOS_INFO_PLIST_E: &'static str = r#"</string>
    <key>CFBundleShortVersionString</key>
    <string>"#;

pub const IOS_INFO_PLIST_F: &'static str = r#"</string>
    <key>CFBundlePackageType</key>
    <string>APPL</string>
    <key>CFBundleExecutable</key>
    <string>"#;

pub const IOS_INFO_PLIST_G: &'static str = r#"</string>
    <key>MinimumOSVersion</key>
    <string>17.0</string>
    <key>CFBundleSupportedPlatforms</key>
    <array>
        <string>iPhoneSimulator</string>
    </array>
    <key>UIDeviceFamily</key>
    <array>
        <integer>1</integer>
        <integer>2</integer>
    </array>
    <key>UIRequiredDeviceCapabilities</key>
    <array>
        <string>arm64</string>
    </array>
    <key>UILaunchScreen</key>
    <dict/>
    <key>DTPlatformName</key>
    <string>iphonesimulator</string>
</dict>
</plist>"#;

/// The Info.plist of an iOS simulator app.
pub open spec fn ios_info_plist(name: Seq<char>, bundle_id: Seq<char>, version: Seq<char>) -> Seq<char> {
    IOS_INFO_PLIST_A@
        + name
        + IOS_INFO_PLIST_B@
        + name
        + IOS_INFO_PLIST_C@
        + bundle_id
        + IOS_INFO_PLIST_D@
        + version
        + IOS_INFO_PLIST_E@
        + version
        + IOS_INFO_PLIST_F@
        + name
        + IOS_INFO_PLIST_G@
}

/// Writes out `ios_info_plist`.
pub fn generate_ios_info_plist(name: &str, bundle_id: &str, version: &str) -> (s: String)
    ensures
        s@ == ios_info_plist(name@, bundle_id@, version@),
{
    let mut s = String::from_str(IOS_INFO_PLIST_A);
    s.append(name);
    s.append(IOS_INFO_PLIST_B);
    s.append(name);
    s.append(IOS_INFO_PLIST_C);
    s.append(bundle_id);
    s.append(IOS_INFO_PLIST_D);
    s.append(version);
    s.append(IOS_INFO_PLIST_E);
    s.append(version);
    s.append(IOS_INFO_PLIST_F);
    s.append(name);
    s.append(IOS_INFO_PLIST_G);
    s
}

pub const MACOS_INFO_PLIST_A: &'static str = r#"<?xml version="1.0" encoding="UTF-8"?>
<!DOCTYPE plist PUBLIC "-//Apple//DTD PLIST 1.0//EN"
  "http://www.apple.com/DTDs/PropertyList-1.0.dtd">
<plist version="1.0">
<dict>
    <key>CFBundleName</key>
    <string>"#;

pub const MACOS_INFO_PLIST_B: &'static str = r#"</string>
    <key>CFBundleDisplayName</key>
    <string>"#;

pub const MACOS_INFO_PLIST_C: &'static str = r#"</string>
    <key>CFBundleIdentifier</key>
    <string>com.appscale."#;

pub const MACOS_INFO_PLIST_D: &'static str = r#"</string>
    <key>CFBundleVersion</key>
    <string>"#;

pub const MACOS_INFO_PLIST_E: &'static str = r#"</string>
    <key>CFBundleShortVersionString</key>
    <string>"#;

pub const MACOS_INFO_PLIST_F: &'static str = r#"</string>
    <key>CFBundlePackagetype</key>
    <string>APPL</string>
    <key>CFBundleExecutable</key>
    <string>"#;

pub const MACOS_INFO_PLIST_G: &'static str = r#"</string>
    <key>LSMinimumSystemVersion</key>
    <string>13.0</string>
    <key>NSHighResolutionCapable</key>
    <true/>
    <key>NSSupportsAutomaticTermination</key>
    <true/>
</dict>
</plist>"#;

/// The Info.plist of a macOS app bundle; its identifier is derived from the name.
pub open spec fn macos_info_plist(name: Seq<char>, version: Seq<char>, id: Seq<char>) -> Seq<char> {
    MACOS_INFO_PLIST_A@
        + name
        + MACOS_INFO_PLIST_B@
        + name
        + MACOS_INFO_PLIST_C@
        + id
        + MACOS_INFO_PLIST_D@
        + version
        + MACOS_INFO_PLIST_E@
        + version
        + MACOS_INFO_PLIST_F@
        + name
        + MACOS_INFO_PLIST_G@
}

/// Writes out `macos_info_plist`.
pub fn generate_info_plist(name: &str, version: &str) -> (s: String)
    ensures
        s@ == macos_info_plist(name@, version@, dashed_lowercase(name@)),
{
    let id = dashed_lowercase_string(name);
    let mut s = String::from_str(MACOS_INFO_PLIST_A);
    s.append(name);
    s.append(MACOS_INFO_PLIST_B);
    s.append(name);
    s.append(MACOS_INFO_PLIST_C);
    s.append(id.as_str());
    s.append(MACOS_INFO_PLIST_D);
    s.append(version);
    s.append(MACOS_INFO_PLIST_E);
    s.append(version);
    s.append(MACOS_INFO_PLIST_F);
    s.append(name);
    s.append(MACOS_INFO_PLIST_G);
    s
}

pub const MACOS_SWIFT_HOST_A: &'static str = r#"import Cocoa

// ---------- AppScale macOS Host ----------
// This host app creates a native macOS window and loads the AppScale
// Rust engine via its C-ABI entry points.

class AppDelegate: NSObject, NSApplicationDelegate {
    var window: NSWindow!

    func applicationDidFinishLaunching(_ notification: Notification) {
        // Create the main window
        let rect = NSRect(x: 0, y: 0, width: 900, height: 600)
        window = NSWindow(
            contentRect: rect,
            styleMask: [.titled, .closable, .resizable, .miniaturizable],
            backing: .buffered,
            defer: false
        )
        window.title = ""#;

pub const MACOS_SWIFT_HOST_B: &'static str = r#""
        window.center()

        // Root view
        let root = NSView(frame: rect)
        root.wantsLayer = true
        root.layer?.backgroundColor = NSColor.white.cgColor

        // Title label
        let label = NSTextField(labelWithString: "Welcome to "#;

pub const MACOS_SWIFT_HOST_C: &'static str = r#"")
        label.font = NSFont.systemFont(ofSize: 24, weight: .bold)
        label.alignment = .center
        label.translatesAutoresizingMaskIntoConstraints = false
        root.addSubview(label)

        // Subtitle
        let sub = NSTextField(labelWithString: "Built with AppScale Engine")
        sub.font = NSFont.systemFont(ofSize: 16, weight: .regular)
        sub.textColor = NSColor.secondaryLabelColor
        sub.alignment = .center
        sub.translatesAutoresizingMaskIntoConstraints = false
        root.addSubview(sub)

        // Status
        let status = NSTextField(labelWithString: "Rust engine loaded ✓")
        status.font = NSFont.systemFont(ofSize: 13, weight: .medium)
        status.textColor = NSColor.systemGreen
        status.alignment = .center
        status.translatesAutoresizingMaskIntoConstraints = false
        root.addSubview(status)

        NSLayoutConstraint.activate([
            label.centerXAnchor.constraint(equalTo: root.centerXAnchor),
            label.centerYAnchor.constraint(equalTo: root.centerYAnchor, constant: -30),
            sub.centerXAnchor.constraint(equalTo: root.centerXAnchor),
            sub.topAnchor.constraint(equalTo: label.bottomAnchor, constant: 8),
            status.centerXAnchor.constraint(equalTo: root.centerXAnchor),
            status.topAnchor.constraint(equalTo: sub.bottomAnchor, constant: 16),
        ])

        window.contentView = root
        window.makeKeyAndOrderFront(nil)
    }

    func applicationShouldTerminateAfterLastWindowClosed(
        _ sender: NSApplication
    ) -> Bool {
        true
    }
}

// --- Entry Point ---
let app = NSApplication.shared
let delegate = AppDelegate()
app.delegate = delegate
app.run()
"#;

/// The Swift program that hosts the app on macOS.
pub open spec fn macos_swift_host(name: Seq<char>, title: Seq<char>) -> Seq<char> {
    MACOS_SWIFT_HOST_A@
        + title
        + MACOS_SWIFT_HOST_B@
        + name
        + MACOS_SWIFT_HOST_C@
}

/// Writes out `macos_swift_host`.
pub fn generate_macos_swift_host(name: &str, title: &str) -> (s: String)
    ensures
        s@ == macos_swift_host(name@, title@),
{
    let mut s = String::from_str(MACOS_SWIFT_HOST_A);
    s.append(title);
    s.append(MACOS_SWIFT_HOST_B);
    s.append(name);
    s.append(MACOS_SWIFT_HOST_C);
    s
}

pub const IOS_SWIFT_HOST_A: &'static str = r#"import UIKit

@main
class AppDelegate: UIResponder, UIApplicationDelegate {
    var window: UIWindow?

    func application(
        _ application: UIApplication,
        didFinishLaunchingWithOptions launchOptions: [UIApplication.LaunchOptionsKey: Any]?
    ) -> Bool {
        window = UIWindow(frame: UIScreen.main.bounds)

        let vc = UIViewController()
        let view = vc.view!
        view.backgroundColor = .white

        let label = UILabel()
        label.text = "Welcome to "#;

pub const IOS_SWIFT_HOST_B: &'static str = r#""
        label.font = .boldSystemFont(ofSize: 24)
        label.textAlignment = .center
        label.translatesAutoresizingMaskIntoConstraints = false
        view.addSubview(label)

        let sub = UILabel()
        sub.text = "Built with AppScale Engine"
        sub.font = .systemFont(ofSize: 16)
        sub.textColor = .gray
        sub.textAlignment = .center
        sub.translatesAutoresizingMaskIntoConstraints = false
        view.addSubview(sub)

        NSLayoutConstraint.activate([
            label.centerXAnchor.constraint(equalTo: view.centerXAnchor),
            label.centerYAnchor.constraint(equalTo: view.centerYAnchor, constant: -20),
            sub.centerXAnchor.constraint(equalTo: view.centerXAnchor),
            sub.topAnchor.constraint(equalTo: label.bottomAnchor, constant: 8),
        ])

        window?.rootViewController = vc
        window?.makeKeyAndVisible()
        return true
    }
}
"#;

/// The Swift app delegate that hosts the app on iOS.
pub open spec fn ios_swift_host(name: Seq<char>) -> Seq<char> {
    IOS_SWIFT_HOST_A@
        + name
        + IOS_SWIFT_HOST_B@
}

/// Writes out `ios_swift_host`.
pub fn generate_ios_swift_host(name: &str) -> (s: String)
    ensures
        s@ == ios_swift_host(name@),
{
    let mut s = String::from_str(IOS_SWIFT_HOST_A);
    s.append(name);
    s.append(IOS_SWIFT_HOST_B);
    s
}

pub const IOS_PBXPROJ_A: &'static str = r#"// !$*UTF8*$!
{
    archiveVersion = 1;
    classes = {};
    objectVersion = 56;
    objects = {
        /* --- root --- */
        ROOT = {
            isa = PBXProject;
            buildConfigurationList = CFGLIST;
            mainGroup = MAIN;
            productRefGroup = PRODUCTS;
            projectDirPath = "";
            projectRoot = "";
            targets = (TARGET);
        };
        MAIN = {
            isa = PBXGroup;
            children = (SOURCES_GROUP, PRODUCTS);
            sourceTree = "<group>";
        };
        SOURCES_GROUP = {
            isa = PBXGroup;
            children = (APPDELEGATE);
            path = Sources;
            sourceTree = "<group>";
        };
        PRODUCTS = {
            isa = PBXGroup;
            children = (PRODUCT_REF);
            name = Products;
            sourceTree = "<group>";
        };
        PRODUCT_REF = {
            isa = PBXFileReference;
            explicitFileType = wrapper.application;
            path = ""#;

pub const IOS_PBXPROJ_B: &'static str = r#".app";
            sourceTree = BUILT_PRODUCTS_DIR;
        };
        APPDELEGATE = {
            isa = PBXFileReference;
            lastKnownFileType = sourcecode.swift;
            path = AppDelegate.swift;
            sourceTree = "<group>";
        };
        TARGET = {
            isa = PBXNativeTarget;
            buildConfigurationList = TARGETCFGLIST;
            name = ""#;

pub const IOS_PBXPROJ_C: &'static str = r#"";
            productName = ""#;

pub const IOS_PBXPROJ_D: &'static str = r#"";
            productReference = PRODUCT_REF;
            productType = "com.apple.product-type.application";
        };
        CFGLIST = {
            isa = XCConfigurationList;
            buildConfigurations = (DEBUG_CFG, RELEASE_CFG);
        };
        TARGETCFGLIST = {
            isa = XCConfigurationList;
            buildConfigurations = (T_DEBUG, T_RELEASE);
        };
        DEBUG_CFG = {
            isa = XCBuildConfiguration;
            name = Debug;
            buildSettings = { SDKROOT = iphoneos; };
        };
        RELEASE_CFG = {
            isa = XCBuildConfiguration;
            name = Release;
            buildSettings = { SDKROOT = iphoneos; };
        };
        T_DEBUG = {
            isa = XCBuildConfiguration;
            name = Debug;
            buildSettings = {
                PRODUCT_BUNDLE_IDENTIFIER = "com.appscale."#;

pub const IOS_PBXPROJ_E: &'static str = r#"";
                INFOPLIST_FILE = "";
                SWIFT_VERSION = 5.0;
            };
        };
        T_RELEASE = {
            isa = XCBuildConfiguration;
            name = Release;
            buildSettings = {
                PRODUCT_BUNDLE_IDENTIFIER = "com.appscale."#;

pub const IOS_PBXPROJ_F: &'static str = r#"";
                INFOPLIST_FILE = "";
                SWIFT_VERSION = 5.0;
            };
        };
    };
    rootObject = ROOT;
}
"#;

/// A minimal Xcode project file for the iOS app.
pub open spec fn ios_pbxproj(name: Seq<char>, id: Seq<char>) -> Seq<char> {
    IOS_PBXPROJ_A@
        + name
        + IOS_PBXPROJ_B@
        + name
        + IOS_PBXPROJ_C@
        + name
        + IOS_PBXPROJ_D@
        + id
        + IOS_PBXPROJ_E@
        + id
        + IOS_PBXPROJ_F@
}

/// Writes out `ios_pbxproj`.
pub fn generate_ios_pbxproj(name: &str) -> (s: String)
    ensures
        s@ == ios_pbxproj(name@, dashed_lowercase(name@)),
{
    let id = dashed_lowercase_string(name);
    let mut s = String::from_str(IOS_PBXPROJ_A);
    s.append(name);
    s.append(IOS_PBXPROJ_B);
    s.append(name);
    s.append(IOS_PBXPROJ_C);
    s.append(name);
    s.append(IOS_PBXPROJ_D);
    s.append(id.as_str());
    s.append(IOS_PBXPROJ_E);
    s.append(id.as_str());
    s.append(IOS_PBXPROJ_F);
    s
}

pub const WEB_HTML_A: &'static str = r#"<!DOCTYPE html>
<html lang="en">
<head>
    <meta charset="UTF-8">
    <meta name="viewport" content="width=device-width, initial-scale=1.0">
    <title>"#;

pub const WEB_HTML_B: &'static str = r#"</title>
    <style>
        * { margin: 0; padding: 0; box-sizing: border-box; }
        body {
            font-family: -apple-system, BlinkMacSystemFont, "Segoe UI", Roboto, sans-serif;
            display: flex;
            justify-content: center;
            align-items: center;
            min-height: 100vh;
            background: #fafafa;
        }
        .container {
            text-align: center;
            padding: 2rem;
        }
        h1 { font-size: 2rem; color: #1a1a1a; margin-bottom: 0.5rem; }
        .subtitle { font-size: 1.1rem; color: #666; margin-bottom: 1rem; }
        .status {
            display: inline-block;
            padding: 0.4rem 1rem;
            background: #e8f5e9;
            color: #2e7d32;
            border-radius: 4px;
            font-size: 0.9rem;
        }
    </style>
</head>
<body>
    <div class="container" id="root">
        <h1>Welcome to "#;

pub const WEB_HTML_C: &'static str = r#"</h1>
        <p class="subtitle">Built with AppScale Engine</p>
        <span class="status" id="status">Loading WASM engine…</span>
    </div>
    <script>
        (async () => {
            try {
                const resp = await fetch('engine.wasm');
                if (resp.ok) {
                    document.getElementById('status').textContent = 'WASM engine loaded ✓ (' +
                        Math.round((await resp.clone().arrayBuffer()).byteLength / 1024) + ' KB)';
                    document.getElementById('status').style.background = '#e8f5e9';
                } else {
                    document.getElementById('status').textContent = 'engine.wasm not found';
                    document.getElementById('status').style.background = '#fff3e0';
                    document.getElementById('status').style.color = '#e65100';
                }
            } catch (e) {
                document.getElementById('status').textContent = 'Error: ' + e.message;
            }
        })();
    </script>
</body>
</html>
"#;

/// The page that loads the web build.
pub open spec fn web_html(name: Seq<char>, title: Seq<char>) -> Seq<char> {
    WEB_HTML_A@
        + title
        + WEB_HTML_B@
        + name
        + WEB_HTML_C@
}

/// Writes out `web_html`.
pub fn generate_web_html(name: &str, title: &str) -> (s: String)
    ensures
        s@ == web_html(name@, title@),
{
    let mut s = String::from_str(WEB_HTML_A);
    s.append(title);
    s.append(WEB_HTML_B);
    s.append(name);
    s.append(WEB_HTML_C);
    s
}

pub const ANDROID_ACTIVITY_A: &'static str = r#"package com.appscale;

import android.app.Activity;
import android.os.Bundle;
import android.widget.LinearLayout;
import android.widget.TextView;
import android.view.Gravity;

public class MainActivity extends Activity {
    @Override
    protected void onCreate(Bundle savedInstanceState) {
        super.onCreate(savedInstanceState);
        setContentView(R.layout.activity_main);
    }

    static {
        try {
            System.loadLibrary(""#;

pub const ANDROID_ACTIVITY_B: &'static str = r#"");
        } catch (UnsatisfiedLinkError e) {
            // Engine not linked yet — UI still renders
        }
    }
}
"#;

/// The Android activity, which loads the native library named after the app.
pub open spec fn android_activity(name: Seq<char>, lib_name: Seq<char>) -> Seq<char> {
    ANDROID_ACTIVITY_A@
        + lib_name
        + ANDROID_ACTIVITY_B@
}

/// Writes out `android_activity`.
pub fn generate_android_activity(name: &str) -> (s: String)
    ensures
        s@ == android_activity(name@, underscored(name@)),
{
    let lib_name = underscored_string(name);
    let mut s = String::from_str(ANDROID_ACTIVITY_A);
    s.append(lib_name.as_str());
    s.append(ANDROID_ACTIVITY_B);
    s
}

pub const ANDROID_BUILD_GRADLE_A: &'static str = r#"plugins {
    id 'com.android.application'
}

android {
    namespace 'com.appscale'
    compileSdk 34

    defaultConfig {
        applicationId "com.appscale."#;

pub const ANDROID_BUILD_GRADLE_B: &'static str = r#""
        minSdk 24
        targetSdk 34
        versionCode 1
        versionName "0.1.0"
    }
}
"#;

/// The Gradle build file of the Android app; its application id is derived from the name.
pub open spec fn android_build_gradle(name: Seq<char>, id: Seq<char>) -> Seq<char> {
    ANDROID_BUILD_GRADLE_A@
        + id
        + ANDROID_BUILD_GRADLE_B@
}

/// Writes out `android_build_gradle`.
pub fn generate_android_build_gradle(name: &str) -> (s: String)
    ensures
        s@ == android_build_gradle(name@, compact_lowercase(name@)),
{
    let id = compact_lowercase_string(name);
    let mut s = String::from_str(ANDROID_BUILD_GRADLE_A);
    s.append(id.as_str());
    s.append(ANDROID_BUILD_GRADLE_B);
    s
}

pub const ANDROID_MANIFEST_A: &'static str = r#"<?xml version="1.0" encoding="utf-8"?>
<manifest xmlns:android="http://schemas.android.com/apk/res/android">
    <application
        android:label=""#;

pub const ANDROID_MANIFEST_B: &'static str = r#""
        android:theme="@android:style/Theme.Material.Light.NoActionBar">
        <activity
            android:name=".MainActivity"
            android:exported="true">
            <intent-filter>
                <action android:name="android.intent.action.MAIN" />
                <category android:name="android.intent.category.LAUNCHER" />
            </intent-filter>
        </activity>
    </application>
</manifest>
"#;

/// The Android manifest of the app.
pub open spec fn android_manifest(name: Seq<char>) -> Seq<char> {
    ANDROID_MANIFEST_A@
        + name
        + ANDROID_MANIFEST_B@
}

/// Writes out `android_manifest`.
pub fn generate_android_manifest(name: &str) -> (s: String)
    ensures
        s@ == android_manifest(name@),
{
    let mut s = String::from_str(ANDROID_MANIFEST_A);
    s.append(name);
    s.append(ANDROID_MANIFEST_B);
    s
}

pub const WINDOWS_MAIN_A: &'static str = r#"// "#;

pub const WINDOWS_MAIN_B: &'static str = r#" — AppScale Windows Host
// Compile with: cl main.c /link user32.lib gdi32.lib

#include <windows.h>

LRESULT CALLBACK WndProc(HWND hwnd, UINT msg, WPARAM wp, LPARAM lp) {
    switch (msg) {
    case WM_PAINT: {
        PAINTSTRUCT ps;
        HDC hdc = BeginPaint(hwnd, &ps);
        RECT rc;
        GetClientRect(hwnd, &rc);
        SetBkMode(hdc, TRANSPARENT);
        DrawText(hdc, TEXT("Welcome to "#;

pub const WINDOWS_MAIN_C: &'static str = r#""), -1, &rc,
                 DT_CENTER | DT_VCENTER | DT_SINGLELINE);
        EndPaint(hwnd, &ps);
        return 0;
    }
    case WM_DESTROY:
        PostQuitMessage(0);
        return 0;
    }
    return DefWindowProc(hwnd, msg, wp, lp);
}

int WINAPI WinMain(HINSTANCE hInst, HINSTANCE prev, LPSTR cmd, int show) {
    const char CLASS[] = "AppScaleWnd";
    WNDCLASS wc = {0};
    wc.lpfnWndProc = WndProc;
    wc.hInstance = hInst;
    wc.lpszClassName = CLASS;
    wc.hbrBackground = (HBRUSH)(COLOR_WINDOW + 1);
    RegisterClass(&wc);
    HWND hwnd = CreateWindow(CLASS, ""#;

pub const WINDOWS_MAIN_D: &'static str = r#"", WS_OVERLAPPEDWINDOW,
        CW_USEDEFAULT, CW_USEDEFAULT, 900, 600, NULL, NULL, hInst, NULL);
    ShowWindow(hwnd, show);
    MSG msg;
    while (GetMessage(&msg, NULL, 0, 0)) {
        TranslateMessage(&msg);
        DispatchMessage(&msg);
    }
    return (int)msg.wParam;
}
"#;

/// The C program that hosts the app on Windows.
pub open spec fn windows_main(name: Seq<char>) -> Seq<char> {
    WINDOWS_MAIN_A@
        + name
        + WINDOWS_MAIN_B@
        + name
        + WINDOWS_MAIN_C@
        + name
        + WINDOWS_MAIN_D@
}

/// Writes out `windows_main`.
pub fn generate_windows_main(name: &str) -> (s: String)
    ensures
        s@ == windows_main(name@),
{
    let mut s = String::from_str(WINDOWS_MAIN_A);
    s.append(name);
    s.append(WINDOWS_MAIN_B);
    s.append(name);
    s.append(WINDOWS_MAIN_C);
    s.append(name);
    s.append(WINDOWS_MAIN_D);
    s
}

pub const WINDOWS_BUILD_SCRIPT_A: &'static str = r#"@echo off
REM Build "#;

pub const WINDOWS_BUILD_SCRIPT_B: &'static str = r#" for Windows
REM Requires Visual Studio Build Tools (cl.exe on PATH)
cl main.c /Fe:"#;

pub const WINDOWS_BUILD_SCRIPT_C: &'static str = r#".exe /link user32.lib gdi32.lib
echo.
echo Build complete: "#;

pub const WINDOWS_BUILD_SCRIPT_D: &'static str = r#".exe
"#;

/// The script that builds the Windows host.
pub open spec fn windows_build_script(name: Seq<char>) -> Seq<char> {
    WINDOWS_BUILD_SCRIPT_A@
        + name
        + WINDOWS_BUILD_SCRIPT_B@
        + name
        + WINDOWS_BUILD_SCRIPT_C@
        + name
        + WINDOWS_BUILD_SCRIPT_D@
}

/// Writes out `windows_build_script`.
pub fn generate_windows_build_script(name: &str) -> (s: String)
    ensures
        s@ == windows_build_script(name@),
{
    let mut s = String::from_str(WINDOWS_BUILD_SCRIPT_A);
    s.append(name);
    s.append(WINDOWS_BUILD_SCRIPT_B);
    s.append(name);
    s.append(WINDOWS_BUILD_SCRIPT_C);
    s.append(name);
    s.append(WINDOWS_BUILD_SCRIPT_D);
    s
}

pub const ANDROID_LAYOUT_A: &'static str = r##"<?xml version="1.0" encoding="utf-8"?>
<LinearLayout xmlns:android="http://schemas.android.com/apk/res/android"
    android:layout_width="match_parent"
    android:layout_height="match_parent"
    android:orientation="vertical"
    android:gravity="center"
    android:background="#FAFAFA">

    <TextView
        android:layout_width="wrap_content"
        android:layout_height="wrap_content"
        android:text="Welcome to "##;

pub const ANDROID_LAYOUT_B: &'static str = r##""
        android:textSize="24sp"
        android:textStyle="bold"
        android:textColor="#1A1A1A" />

    <TextView
        android:layout_width="wrap_content"
        android:layout_height="wrap_content"
        android:text="Built with AppScale Engine"
        android:textSize="16sp"
        android:textColor="#666666"
        android:layout_marginTop="8dp" />
</LinearLayout>
"##;

/// The layout of the Android activity.
pub open spec fn android_layout(name: Seq<char>) -> Seq<char> {
    ANDROID_LAYOUT_A@
        + name
        + ANDROID_LAYOUT_B@
}

/// Writes out `android_layout`.
pub fn generate_android_layout(name: &str) -> (s: String)
    ensures
        s@ == android_layout(name@),
{
    let mut s = String::from_str(ANDROID_LAYOUT_A);
    s.append(name);
    s.append(ANDROID_LAYOUT_B);
    s
}

pub const APP_TSX_A: &'static str = r#"import React from 'react';

export default function App() {
  return (
    <View style={{ flex: 1, justifyContent: 'center', alignItems: 'center' }}>
      <Text style={{ fontSize: 24, fontWeight: 'bold' }}>
        Welcome to "#;

pub const APP_TSX_B: &'static str = r#"
      </Text>
      <Text style={{ fontSize: 16, color: '#666', marginTop: 8 }}>
        Built with AppScale Engine
      </Text>
    </View>
  );
}
"#;

/// The starter React component of a new project.
pub open spec fn app_tsx(name: Seq<char>) -> Seq<char> {
    APP_TSX_A@
        + name
        + APP_TSX_B@
}

/// Writes out `app_tsx`.
pub fn generate_app_tsx(name: &str) -> (s: String)
    ensures
        s@ == app_tsx(name@),
{
    let mut s = String::from_str(APP_TSX_A);
    s.append(name);
    s.append(APP_TSX_B);
    s
}

pub const NATIVE_CARGO_TOML_A: &'static str = r#"[package]
name = ""#;

pub const NATIVE_CARGO_TOML_B: &'static str = r#"-native"
version = "0.1.0"
edition = "2021"

[dependencies]
appscale-core = { path = "../../rust-core" }
"#;

/// The manifest of the native Rust crate of a new project.
pub open spec fn native_cargo_toml(name: Seq<char>) -> Seq<char> {
    NATIVE_CARGO_TOML_A@
        + name
        + NATIVE_CARGO_TOML_B@
}

/// Writes out `native_cargo_toml`.
pub fn generate_native_cargo_toml(name: &str) -> (s: String)
    ensures
        s@ == native_cargo_toml(name@),
{
    let mut s = String::from_str(NATIVE_CARGO_TOML_A);
    s.append(name);
    s.append(NATIVE_CARGO_TOML_B);
    s
}

pub const PROJECT_README_A: &'static str = r#"# "#;

pub const PROJECT_README_B: &'static str = r#"

An AppScale cross-platform app.

## Getting Started

```bash
npm install
appscale dev          # Start dev server
appscale build web    # Build for web
appscale build ios    # Build for iOS
appscale build android  # Build for Android
```
"#;

/// The README of a new project.
pub open spec fn project_readme(name: Seq<char>) -> Seq<char> {
    PROJECT_README_A@
        + name
        + PROJECT_README_B@
}

/// Writes out `project_readme`.
pub fn generate_project_readme(name: &str) -> (s: String)
    ensures
        s@ == project_readme(name@),
{
    let mut s = String::from_str(PROJECT_README_A);
    s.append(name);
    s.append(PROJECT_README_B);
    s
}

} // verus!
