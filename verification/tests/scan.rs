use optima::scan::{is_settings_exe, settings_search, Entry, Scan, SettingsSearch, Wanted};

fn entry(id: usize, path: &str, is_dir: bool) -> Entry {
    let name = path.rsplit('/').next().unwrap().to_string();
    Entry { id, is_dir, name: Some(name), path: path.to_string() }
}

#[test]
fn the_shallowest_file_is_given() {
    let w = Wanted::Named("x.exe".to_string());
    let mut s = Scan::new(0);
    assert_eq!(s.next_dir(), Some(0));
    s.visit(&vec![entry(1, "/g/Versus", true), entry(2, "/g/System", true)], &w);
    assert_eq!(s.next_dir(), Some(2));
    s.visit(&vec![entry(3, "/g/System/a", true), entry(4, "/g/System/y.exe", false)], &w);
    assert_eq!(s.next_dir(), Some(3));
    s.visit(&vec![entry(5, "/g/System/a/x.exe", false)], &w);
    assert_eq!(s.best(), Some(5));
    assert_eq!(s.next_dir(), Some(1));
    s.visit(&vec![entry(6, "/g/Versus/x.exe", false), entry(7, "/g/Versus/X.EXE", false)], &w);
    assert_eq!(s.next_dir(), None);
    assert_eq!(s.best(), Some(6));
}

#[test]
fn of_equals_the_first_is_given() {
    let w = Wanted::Named("x".to_string());
    let mut s = Scan::new(0);
    assert_eq!(s.best(), None);
    s.visit(&vec![entry(1, "/a/x", false), entry(2, "/b/x", false), entry(3, "/c/x", true)], &w);
    assert_eq!(s.best(), Some(1));
    assert_eq!(s.next_dir(), Some(3));
    assert_eq!(s.next_dir(), Some(0));
}

#[test]
fn a_name_that_is_no_text_is_not_found() {
    let odd = || Entry { id: 1, is_dir: false, name: None, path: "/g/\u{fffd}.exe".to_string() };
    let mut s = Scan::new(0);
    s.visit(&vec![odd()], &Wanted::Named("\u{fffd}.exe".to_string()));
    s.visit(&vec![odd()], &Wanted::Settings);
    assert_eq!(s.best(), None);
}

#[test]
fn settings_applications_by_their_looks() {
    assert!(is_settings_exe("SettingsApplication.EXE", "/g/SettingsApplication.EXE"));
    assert!(is_settings_exe("GameConfig.exe", "/g/GameConfig.exe"));
    assert!(is_settings_exe("ÄSETTINGS.EXE", "/g/ÄSETTINGS.EXE"));
    assert!(!is_settings_exe("Äconfig.exe", "/g/Ä/SUPPORT/Installs/Äconfig.exe"));
    assert!(!is_settings_exe("game.exe", "/g/settings/game.exe"));
    assert!(!is_settings_exe("settings.ini", "/g/settings.ini"));
    for junk in ["vcredist", "vc_redist", "dxsetup", "directx", "redist", "unins"] {
        assert!(!is_settings_exe(&format!("{junk}_config.exe"), "/g/x"));
    }
    assert!(!is_settings_exe("config.exe", "/g/Support/Installs/config.exe"));
    let mut s = Scan::new(0);
    s.visit(&vec![entry(4, "/g/Setting.exe", false)], &Wanted::Settings);
    assert_eq!(s.best(), Some(4));
}

#[test]
fn how_the_settings_application_is_searched_for() {
    match settings_search(Some("bin\\s.exe"), "/g", None) {
        SettingsSearch::Asked { path, base } => {
            assert_eq!((path.as_str(), base.as_str()), ("/g/bin/s.exe", "s.exe"));
        }
        other => panic!("{other:?}"),
    }
    match settings_search(None, "/g", Some("{relative: bin/s.exe, name: Settings}")) {
        SettingsSearch::Named(base) => assert_eq!(base, "s.exe"),
        other => panic!("{other:?}"),
    }
    match settings_search(None, "/g", Some("{relative: Tools\\Setup.exe, name: Settings}")) {
        SettingsSearch::Named(base) => assert_eq!(base, "Setup.exe"),
        other => panic!("{other:?}"),
    }
    assert!(matches!(settings_search(None, "/g", Some("a: b")), SettingsSearch::Looks));
    assert!(matches!(settings_search(None, "/g", None), SettingsSearch::Looks));
}
