use hyprtrace::server::desktop::{
    current_locale, file_stem, is_desktop_file, locale_tag, parse_desktop_file_with_locale,
    scan_directories, unescape, AppMetadataResolver,
};

/// A resolver over the given `(file name, text)` pairs only, as if they
/// were the whole application directory.
fn resolver_over(files: &[(&str, &str)], locale: &str) -> AppMetadataResolver {
    let files: Vec<(String, String)> =
        files.iter().map(|(n, c)| (n.to_string(), c.to_string())).collect();
    AppMetadataResolver::scan(&files, locale)
}

#[test]
fn no_display_entries_are_skipped() {
    let resolver = resolver_over(
        &[
            ("hidden-app.desktop", "[Desktop Entry]\nName=Hidden App\nIcon=hidden\nNoDisplay=true\n"),
            ("hidden-flag.desktop", "[Desktop Entry]\nName=Hidden Flag\nIcon=flag\nHidden=true\n"),
        ],
        "",
    );
    assert!(resolver.lookup("hidden app").is_none());
    assert!(resolver.lookup("hidden-app").is_none());
    assert!(resolver.lookup("hidden flag").is_none());
    assert!(resolver.lookup("hidden-flag").is_none());
}

#[test]
fn startup_wm_class_matches_and_wins_over_other_keys() {
    let resolver = resolver_over(
        &[(
            "code.desktop",
            "[Desktop Entry]\nName=Visual Studio Code\nStartupWMClass=Code\nIcon=vscode\n",
        )],
        "",
    );
    let meta = resolver.lookup("CODE").expect("startup WM class should match");
    assert_eq!(meta.desktop_id, "code.desktop");
    assert_eq!(meta.display_name, "Visual Studio Code");
    assert_eq!(meta.icon, "vscode");
    let meta = resolver.lookup("Code").expect("case should be normalized");
    assert_eq!(meta.display_name, "Visual Studio Code");
    let meta = resolver.lookup("code").expect("file stem should match");
    assert_eq!(meta.display_name, "Visual Studio Code");
}

#[test]
fn stem_match_and_localized_name_ignored_when_locale_differs() {
    let locale = current_locale(&Some("en_US.UTF-8".to_string()), &None);
    let resolver = resolver_over(
        &[("firefox.desktop", "[Desktop Entry]\nName=Firefox\nName[zh_CN]=火狐浏览器\nIcon=firefox\n")],
        &locale,
    );
    let meta = resolver.lookup("firefox").expect("stem should match");
    assert_eq!(meta.display_name, "Firefox", "unmatched localized Name must not override plain Name");
    assert_eq!(meta.icon, "firefox");
    let meta = resolver.lookup("FIREFOX").expect("name fallback should match");
    assert_eq!(meta.display_name, "Firefox");
}

#[test]
fn unknown_class_returns_none() {
    let resolver = resolver_over(&[("code.desktop", "[Desktop Entry]\nName=Visual Studio Code\n")], "");
    assert!(resolver.lookup("totally-unknown").is_none());
    assert!(resolver.lookup("").is_none());
}

#[test]
fn localized_name_wins_when_locale_matches() {
    let content = "[Desktop Entry]\nType=Application\nName=Firefox\nName[zh_CN]=火狐浏览器\nIcon=firefox\n";
    let entry = parse_desktop_file_with_locale(content, "firefox.desktop", "zh_CN").expect("parsed");
    assert_eq!(entry.metadata.display_name, "火狐浏览器");
    let entry = parse_desktop_file_with_locale(content, "firefox.desktop", "en_US").expect("parsed");
    assert_eq!(entry.metadata.display_name, "Firefox");
}

#[test]
fn desktop_entry_decodes_escapes() {
    let resolver = resolver_over(
        &[("code.desktop", "[Desktop Entry]\nType=Application\nName=Code\\tEditor\nIcon=code\n")],
        "",
    );
    let meta = resolver.lookup("code").expect("stem match");
    assert_eq!(meta.display_name, "Code\tEditor");
}

#[test]
fn non_application_entries_are_skipped() {
    let resolver = resolver_over(
        &[("link.desktop", "[Desktop Entry]\nType=Link\nName=Some Link\nIcon=link\n")],
        "",
    );
    assert!(resolver.lookup("some link").is_none());
    assert!(resolver.lookup("link").is_none());
}

#[test]
fn earlier_entries_keep_their_keys() {
    let resolver = resolver_over(
        &[
            ("a.desktop", "[Desktop Entry]\nName=Shared\nIcon=first\n"),
            ("b.desktop", "[Desktop Entry]\nName=Shared\nIcon=second\n"),
        ],
        "",
    );
    assert_eq!(resolver.lookup("shared").unwrap().icon, "first");
    assert_eq!(resolver.lookup("b").unwrap().icon, "second");
}

#[test]
fn other_groups_and_files_are_ignored() {
    let resolver = resolver_over(
        &[
            ("x.desktop", "[Desktop Action new]\nName=Action\n[Desktop Entry]\n# comment\nName = Spaced \n"),
            ("notes.txt", "[Desktop Entry]\nName=Notes\n"),
        ],
        "",
    );
    assert!(resolver.lookup("action").is_none());
    assert_eq!(resolver.lookup("spaced").unwrap().display_name, "Spaced");
    assert!(resolver.lookup("notes").is_none());
}

#[test]
fn unescape_sequences() {
    assert_eq!(unescape("a\\sb\\nc\\td\\re\\\\f"), "a b\nc\td\re\\f");
    assert_eq!(unescape("keep\\x"), "keep\\x");
    assert_eq!(unescape("end\\"), "end\\");
}

#[test]
fn file_names_stems_and_locales() {
    assert_eq!(file_stem("org.gnome.Nautilus.desktop"), "org.gnome.Nautilus");
    assert_eq!(file_stem(".hidden"), ".hidden");
    assert!(is_desktop_file("code.desktop"));
    assert!(!is_desktop_file(".desktop"));
    assert!(!is_desktop_file("code.desktop.bak"));
    assert_eq!(locale_tag("zh_CN.UTF-8"), "zh_CN");
    assert_eq!(locale_tag("sr_RS@latin"), "sr_RS");
    assert_eq!(current_locale(&None, &Some("de_DE.UTF-8".to_string())), "de_DE");
    assert_eq!(current_locale(&None, &None), "");
}

#[test]
fn scan_directories_order() {
    let dirs = scan_directories(&None, &Some("/home/u".to_string()), &None);
    assert_eq!(
        dirs,
        vec![
            "/home/u/.local/share/applications".to_string(),
            "/usr/local/share/applications".to_string(),
            "/usr/share/applications".to_string(),
        ]
    );
    let dirs = scan_directories(&Some("/x/".to_string()), &Some("/home/u".to_string()), &Some("/a::/b".to_string()));
    assert_eq!(
        dirs,
        vec!["/x/applications".to_string(), "/a/applications".to_string(), "/b/applications".to_string()]
    );
}

#[test]
fn localized_name_counts_before_plain_name() {
    let content = "[Desktop Entry]\nName[zh_CN]=火狐\nName=Firefox\n";
    let entry = parse_desktop_file_with_locale(content, "x.desktop", "zh_CN").expect("parsed");
    assert_eq!(entry.metadata.display_name, "火狐");
    assert_eq!(entry.name, "Firefox");
    let entry = parse_desktop_file_with_locale(content, "x.desktop", "de_DE").expect("parsed");
    assert_eq!(entry.metadata.display_name, "Firefox");
}

#[test]
fn startup_wm_class_takes_over_an_earlier_stem_key() {
    let resolver = resolver_over(
        &[
            ("code.desktop", "[Desktop Entry]\nName=Editor A\n"),
            ("other.desktop", "[Desktop Entry]\nName=Editor B\nStartupWMClass=Code\n"),
        ],
        "",
    );
    assert_eq!(resolver.lookup("code").expect("claimed").display_name, "Editor B");
    assert_eq!(resolver.lookup("editor a").expect("name key").display_name, "Editor A");
    assert_eq!(resolver.lookup("other").expect("stem key").display_name, "Editor B");
}

#[test]
fn earlier_startup_wm_class_keeps_its_key() {
    let resolver = resolver_over(
        &[
            ("a.desktop", "[Desktop Entry]\nName=First\nStartupWMClass=Shared\n"),
            ("b.desktop", "[Desktop Entry]\nName=Second\nStartupWMClass=shared\n"),
            ("shared.desktop", "[Desktop Entry]\nName=Third\n"),
        ],
        "",
    );
    assert_eq!(resolver.lookup("SHARED").expect("claimed").display_name, "First");
}

#[test]
fn lookup_ignores_surrounding_space() {
    let resolver = resolver_over(&[("code.desktop", "[Desktop Entry]\nName=Visual Studio Code\n")], "");
    assert_eq!(resolver.lookup("  code\t"), resolver.lookup("code"));
    assert!(resolver.lookup("  code\t").is_some());
    assert!(resolver.lookup("   ").is_none());
}
