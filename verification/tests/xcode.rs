use sweetpad_core::xcode::{
    active_install, choose_developer_dir, extract_plist_string, version_plist_path, version_strings,
    ActiveInstall,
};

#[test]
fn major_version_parses_from_short_version() {
    let i = ActiveInstall {
        developer_dir: "/tmp".into(),
        short_version: "26.0.1".into(),
        build_version: "17A400".into(),
    };
    assert_eq!(i.major_version(), 26);
    assert_eq!(i.product_build_version(), "26.0.1-17A400");
}

#[test]
fn product_build_version_falls_back_to_unknown() {
    let i = ActiveInstall {
        developer_dir: "/tmp".into(),
        short_version: String::new(),
        build_version: String::new(),
    };
    assert_eq!(i.product_build_version(), "Unknown");
    assert_eq!(i.major_version(), 0);
}

#[test]
fn extracts_plist_string_value() {
    let xml = r"<plist>
            <dict>
              <key>CFBundleShortVersionString</key>
              <string>26.0.1</string>
              <key>ProductBuildVersion</key>
              <string>17A400</string>
            </dict>
          </plist>";
    assert_eq!(
        extract_plist_string(xml, "CFBundleShortVersionString").as_deref(),
        Some("26.0.1"),
    );
    assert_eq!(
        extract_plist_string(xml, "ProductBuildVersion").as_deref(),
        Some("17A400"),
    );
    assert!(extract_plist_string(xml, "Missing").is_none());
}

fn install(short: &str, build: &str) -> ActiveInstall {
    ActiveInstall {
        developer_dir: "/Applications/Xcode.app/Contents/Developer".into(),
        short_version: short.into(),
        build_version: build.into(),
    }
}

#[test]
fn major_version_of_single_component() {
    assert_eq!(install("15", "").major_version(), 15);
}

#[test]
fn major_version_accepts_plus_sign() {
    assert_eq!(install("+16.2", "").major_version(), 16);
}

#[test]
fn major_version_of_unparseable_is_zero() {
    assert_eq!(install("beta.1", "").major_version(), 0);
    assert_eq!(install(".1", "").major_version(), 0);
    assert_eq!(install("-3.1", "").major_version(), 0);
    assert_eq!(install("99999999999.0", "").major_version(), 0);
}

#[test]
fn major_version_at_u32_limit() {
    assert_eq!(install("4294967295.1", "").major_version(), u32::MAX);
    assert_eq!(install("4294967296", "").major_version(), 0);
}

#[test]
fn product_build_version_needs_both_parts() {
    assert_eq!(install("26.0", "").product_build_version(), "Unknown");
    assert_eq!(install("", "17A400").product_build_version(), "Unknown");
    assert_eq!(install("16.4", "16F6").product_build_version(), "16.4-16F6");
}

#[test]
fn plist_value_after_key_only() {
    let xml = "<string>early</string><key>K</key><string>late</string>";
    assert_eq!(extract_plist_string(xml, "K").as_deref(), Some("late"));
}

#[test]
fn plist_empty_value_is_none() {
    let xml = "<key>K</key><string></string>";
    assert!(extract_plist_string(xml, "K").is_none());
}

#[test]
fn plist_without_string_is_none() {
    assert!(extract_plist_string("<key>K</key><integer>3</integer>", "K").is_none());
    assert!(extract_plist_string("<key>K</key></string>", "K").is_none());
}

#[test]
fn plist_value_with_non_ascii_text() {
    let xml = "<key>Name</key><string>Xcodé ☃</string>";
    assert_eq!(extract_plist_string(xml, "Name").as_deref(), Some("Xcodé ☃"));
}

#[test]
fn plist_written_value_reads_back() {
    let key = "CFBundleShortVersionString";
    let value = "26.0.1 <beta>";
    let xml = format!("<key>{key}</key><string>{value}</string>");
    assert_eq!(extract_plist_string(&xml, key).as_deref(), Some(value));
}

#[test]
fn version_strings_from_plist() {
    let xml = "<dict><key>CFBundleShortVersionString</key><string>26.0.1</string>\
               <key>ProductBuildVersion</key><string>17A400</string></dict>";
    let (short, build) = version_strings(Some(xml));
    assert_eq!(short, "26.0.1");
    assert_eq!(build, "17A400");
    let (short, build) = version_strings(None);
    assert_eq!(short, "");
    assert_eq!(build, "");
    let (short, build) = version_strings(Some("<dict></dict>"));
    assert_eq!(short, "");
    assert_eq!(build, "");
}

#[test]
fn active_install_keeps_dir_and_reads_versions() {
    let xml = "<key>CFBundleShortVersionString</key><string>16.4</string>\
               <key>ProductBuildVersion</key><string>16F6</string>";
    let i = active_install("/X/Contents/Developer".to_string(), Some(xml));
    assert_eq!(i.developer_dir, "/X/Contents/Developer");
    assert_eq!(i.short_version, "16.4");
    assert_eq!(i.build_version, "16F6");
    assert_eq!(i.major_version(), 16);
    let i = active_install("/Y".to_string(), None);
    assert_eq!(i.short_version, "");
    assert_eq!(i.product_build_version(), "Unknown");
}

#[test]
fn developer_dir_prefers_environment() {
    assert_eq!(
        choose_developer_dir(Some("/Custom/Developer"), Some("/Other\n")),
        "/Custom/Developer"
    );
}

#[test]
fn developer_dir_falls_back_to_xcode_select_trimmed() {
    assert_eq!(
        choose_developer_dir(Some(""), Some("  /Applications/Xcode-beta.app/Contents/Developer\n")),
        "/Applications/Xcode-beta.app/Contents/Developer"
    );
    assert_eq!(
        choose_developer_dir(None, Some("/Library/Developer/CommandLineTools\n")),
        "/Library/Developer/CommandLineTools"
    );
}

#[test]
fn developer_dir_default() {
    assert_eq!(
        choose_developer_dir(None, None),
        "/Applications/Xcode.app/Contents/Developer"
    );
    assert_eq!(
        choose_developer_dir(Some(""), Some(" \n\t")),
        "/Applications/Xcode.app/Contents/Developer"
    );
}

#[test]
fn version_plist_sits_next_to_the_developer_dir() {
    assert_eq!(
        version_plist_path("/Applications/Xcode.app/Contents/Developer").as_deref(),
        Some("/Applications/Xcode.app/Contents/version.plist")
    );
    assert_eq!(version_plist_path("/"), None);
}
