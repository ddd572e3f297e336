use optima::proton::{
    bundled_proton, bundled_umu, cert_marker, cert_path, chosen_proton, chosen_umu, cpu_topology,
    dxvk_filter, ensure_cert_trust, ensure_registry, game_key_marker, game_run, import_seed,
    is_seed, launcher_marker, parse_register, pinned_proton, proton_candidates, reg_add_both,
    seed_dirs, seed_marker, starting_text, which, would_run_text, wow64_variant, Run, RunOptions,
    Runtime,
};

fn runtime(proton: Option<&str>) -> Runtime {
    Runtime {
        umu: "/u/umu-run".to_string(),
        proton: proton.map(String::from),
        prefix: "/p".to_string(),
    }
}

fn plain() -> RunOptions {
    RunOptions { nvapi: false, cpu_limit: None, dxvk_filter: None, nvidia: false, log: false }
}

fn env(r: &Run, name: &str) -> Option<String> {
    r.env.iter().find(|(n, _)| n == name).map(|(_, v)| v.clone())
}

fn some(s: &str) -> Option<String> {
    Some(s.to_string())
}

#[test]
fn the_bundled_launcher_comes_first() {
    assert_eq!(bundled_umu("/h"), "/h/.local/share/maxima/wine/umu/umu-run");
    assert_eq!(chosen_umu("/h", true, some("/usr/bin/umu-run")), Some(bundled_umu("/h")));
    assert_eq!(chosen_umu("/h", false, some("/usr/bin/umu-run")), some("/usr/bin/umu-run"));
    assert_eq!(chosen_umu("/h", false, None), None);
    assert_eq!(which(true, b" /usr/bin/umu-run\n"), some("/usr/bin/umu-run"));
    assert_eq!(which(true, b"/\xff\n"), some("/\u{fffd}"));
    assert_eq!(which(false, b"x"), None);
}

#[test]
fn a_pinned_proton_is_a_path_or_a_name() {
    assert_eq!(pinned_proton("/h", "/opt/p", true, &vec![]), some("/opt/p"));
    assert_eq!(pinned_proton("/h", "/opt/p", false, &vec![false; 4]), None);
    assert_eq!(
        pinned_proton("/h", "GE", true, &vec![false, false, true, true]),
        some("/h/.local/share/umu/GE")
    );
    assert_eq!(
        proton_candidates("/h", "GE"),
        vec![
            "/h/.local/share/Steam/compatibilitytools.d/GE",
            "/h/.steam/root/compatibilitytools.d/GE",
            "/h/.local/share/umu/GE",
            "/h/.steam/steam/steamapps/common/GE",
        ]
    );
}

#[test]
fn the_bundled_proton_comes_last() {
    assert_eq!(chosen_proton("/h", some("/x"), true), some("/x"));
    assert_eq!(chosen_proton("/h", None, true), Some(bundled_proton("/h")));
    assert_eq!(chosen_proton("/h", None, false), None);
}

#[test]
fn keys_of_programs_of_the_other_width() {
    assert_eq!(
        wow64_variant("HKLM\\SOFTWARE\\Ubisoft\\Launcher"),
        some("HKLM\\SOFTWARE\\Wow6432Node\\Ubisoft\\Launcher")
    );
    assert_eq!(wow64_variant("hklm\\Software\\x"), some("HKLM\\SOFTWARE\\Wow6432Node\\x"));
    assert_eq!(wow64_variant("HKLM\\SOFTWARE\\wow6432node\\x"), None);
    assert_eq!(wow64_variant("HKCU\\SOFTWARE\\x"), None);
    assert_eq!(wow64_variant("HKLM\\SOFTWARE"), None);
    assert_eq!(wow64_variant("HKLM\\ſOFTWARE\\x"), None);
    let w = wow64_variant("HKLM\\SOFTWARE\\x").unwrap();
    assert_eq!(wow64_variant(&w), None);
}

#[test]
fn a_value_is_written_to_both_keys() {
    let l = reg_add_both(&runtime(Some("/proton")), "HKLM\\SOFTWARE\\K", "V", "D");
    assert_eq!(l.len(), 2);
    assert_eq!(
        l[1].args,
        vec![
            "/u/umu-run", "reg", "add", "HKLM\\SOFTWARE\\Wow6432Node\\K", "/v", "V", "/t",
            "REG_SZ", "/d", "D", "/f"
        ]
    );
    assert_eq!(env(&l[0], "PROTONPATH"), some("/proton"));
    assert_eq!(env(&l[0], "WINEPREFIX"), some("/p"));
    assert_eq!(env(&l[0], "GAMEID"), some("0"));
    assert_eq!(env(&l[0], "STORE"), some("none"));
    assert_eq!(reg_add_both(&runtime(None), "HKCU\\K", "V", "D").len(), 1);
}

#[test]
fn a_location_parts_into_key_and_value() {
    assert_eq!(
        parse_register("HKEY_LOCAL_MACHINE\\SOFTWARE\\Ubisoft\\Game \\ Install path "),
        Some(("HKLM\\SOFTWARE\\Ubisoft\\Game".to_string(), "Install path".to_string()))
    );
    assert_eq!(
        parse_register("HKEY_CURRENT_USER\\a"),
        Some(("HKCU".to_string(), "a".to_string()))
    );
    assert_eq!(
        parse_register("HKEY_CLASSES_ROOT\\a\\b"),
        Some(("HKCR\\a".to_string(), "b".to_string()))
    );
    assert_eq!(parse_register("nothing"), None);
    assert_eq!(parse_register("key\\ "), None);
    assert_eq!(parse_register(" \\value"), None);
}

#[test]
fn marks_in_a_prefix() {
    assert_eq!(launcher_marker("/p", 5), "/p/.optima-reg3-5");
    assert_eq!(game_key_marker("/p", 5), "/p/.optima-gamekey-5");
    assert_eq!(seed_marker("/p", 5), "/p/.optima-regseed-5");
    assert_eq!(cert_marker("/p"), "/p/.optima-cert");
    assert_eq!(cert_path("/p"), "/p/optima-signing.cer");
}

#[test]
fn the_registry_tells_where_the_game_is() {
    let rt = runtime(None);
    let plan = ensure_registry(&rt, 5, "/g", Some("HKEY_LOCAL_MACHINE\\SOFTWARE\\G\\Dir"), false, false);
    let l = plan.launcher.unwrap();
    assert_eq!(l.len(), 4);
    assert_eq!(l[0].args[3], "HKLM\\SOFTWARE\\Ubisoft\\Launcher\\Installs\\5");
    assert_eq!(l[0].args[5], "InstallDir");
    assert_eq!(l[0].args[9], "Z:\\g\\");
    assert_eq!(l[2].args[3], "HKLM\\SOFTWARE\\Ubisoft\\Launcher");
    let k = plan.game_key.unwrap();
    assert_eq!((k.key.as_str(), k.value.as_str()), ("HKLM\\SOFTWARE\\G", "Dir"));
    assert_eq!(k.runs.len(), 2);
}

#[test]
fn what_is_marked_is_not_written_again() {
    let rt = runtime(None);
    let plan = ensure_registry(&rt, 5, "/g", Some("HKLM\\x\\y"), true, true);
    assert!(plan.launcher.is_none() && plan.game_key.is_none());
    let plan = ensure_registry(&rt, 5, "/g", None, true, false);
    assert!(plan.game_key.is_none());
    let plan = ensure_registry(&rt, 5, "/g", Some("bad"), true, false);
    assert!(plan.game_key.is_none());
}

#[test]
fn the_certificate_is_trusted_in_two_stores() {
    let l = ensure_cert_trust(&runtime(None), "/p/c.cer");
    assert_eq!(
        l[0].args,
        vec!["/u/umu-run", "certutil", "-addstore", "-f", "Root", "Z:\\p\\c.cer"]
    );
    assert_eq!(l[1].args[4], "TrustedPublisher");
    assert_eq!(l.len(), 2);
    assert!(env(&l[0], "PROTONPATH").is_none());
}

#[test]
fn settings_that_a_game_ships() {
    assert_eq!(seed_dirs("/g"), vec!["/g", "/g/support"]);
    assert!(is_seed("/g/support/settings.REG"));
    assert!(!is_seed("/g/settings.reg.txt"));
    assert!(!is_seed("/g/.reg"));
    let r = import_seed(&runtime(None), "/g/s.reg");
    assert_eq!(r.args, vec!["/u/umu-run", "regedit", "/S", "Z:\\g\\s.reg"]);
}

#[test]
fn processors_that_a_game_sees() {
    assert_eq!(cpu_topology(None), some("4:0,1,2,3"));
    assert_eq!(cpu_topology(Some("x")), some("4:0,1,2,3"));
    assert_eq!(cpu_topology(Some("2")), some("2:0,1"));
    assert_eq!(cpu_topology(Some("12")), some("12:0,1,2,3,4,5,6,7,8,9,10,11"));
    assert_eq!(cpu_topology(Some("0")), None);
}

#[test]
fn the_device_of_a_game() {
    assert_eq!(dxvk_filter(None, true), some("NVIDIA"));
    assert_eq!(dxvk_filter(None, false), None);
    assert_eq!(dxvk_filter(Some("NONE"), true), None);
    assert_eq!(dxvk_filter(Some(""), true), None);
    assert_eq!(dxvk_filter(Some("AMD"), true), some("AMD"));
}

#[test]
fn the_run_of_a_game() {
    let args = vec!["-a".to_string(), "b".to_string()];
    let r = game_run(&runtime(None), "/g", "/g/bin/x.exe", &args, &plain());
    assert_eq!(r.args, vec!["/u/umu-run", "/g/bin/x.exe", "-a", "b"]);
    assert_eq!(r.dir, some("/g"));
    assert_eq!(env(&r, "PROTON_DISABLE_NVAPI"), some("1"));
    assert_eq!(env(&r, "DXVK_ENABLE_NVAPI"), some("0"));
    assert_eq!(env(&r, "WINE_CPU_TOPOLOGY"), some("4:0,1,2,3"));
    assert_eq!(env(&r, "DXVK_FILTER_DEVICE_NAME"), None);
    assert_eq!(r.env.len(), 6);
}

#[test]
fn what_a_user_may_ask_of_a_run() {
    let o = RunOptions {
        nvapi: true,
        cpu_limit: some("0"),
        dxvk_filter: some("AMD"),
        nvidia: true,
        log: true,
    };
    let r = game_run(&runtime(Some("/proton")), "/g", "/g/System/x.exe", &vec![], &o);
    assert_eq!(r.dir, some("/g/System"));
    let names: Vec<&str> = r.env.iter().map(|(n, _)| n.as_str()).collect();
    assert_eq!(
        names,
        vec![
            "WINEPREFIX", "GAMEID", "STORE", "PROTONPATH", "DXVK_FILTER_DEVICE_NAME", "PROTON_LOG",
            "PROTON_LOG_DIR", "VK_LOADER_DEBUG", "DXVK_LOG_LEVEL"
        ]
    );
    assert_eq!(env(&r, "VK_LOADER_DEBUG"), some("error,warn,info"));
    assert_eq!(env(&r, "PROTON_LOG_DIR"), some("/p"));
}

#[test]
fn how_a_run_is_shown() {
    let args = vec!["-a".to_string(), "b".to_string()];
    assert_eq!(
        would_run_text(&runtime(Some("/x")), "/g", "/g/x.exe", &args),
        "[launch] would run: cd /g && WINEPREFIX=/p GAMEID=0 STORE=none PROTONPATH=/x python3 \
         /u/umu-run /g/x.exe -a b"
    );
    assert_eq!(
        would_run_text(&runtime(None), "/g", "/g/x.exe", &vec![]),
        "[launch] would run: cd /g && WINEPREFIX=/p GAMEID=0 STORE=none python3 /u/umu-run \
         /g/x.exe "
    );
    assert_eq!(starting_text("/g/x.exe", &args), "[launch] starting /g/x.exe -a b under Proton...");
}
