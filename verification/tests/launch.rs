use optima::launch::{
    backs_up, backup_name, config_files, detect_drm, find_bytes, is_offline, is_our_loader,
    loaders_for, needs_eax, orbit_toml, toml_escape, uplay_ini, uplay_toml, wine_path, working_dir,
    Drm, LaunchAccount, Loader,
};

fn account() -> LaunchAccount {
    LaunchAccount {
        user_id: "u-1".to_string(),
        username: "M\"e".to_string(),
        email: "me@x.y".to_string(),
        ticket: "tick".to_string(),
        password: "p\\w".to_string(),
        app_id: 273,
        language: "en-US".to_string(),
    }
}

#[test]
fn bytes_are_found_in_either_case() {
    assert_eq!(find_bytes(b"xxUbiOrbitAPI", b"ubiorbitapi"), Some(2));
    assert_eq!(find_bytes(b"aab", b"AB"), Some(1));
    assert_eq!(find_bytes(b"abc", b""), None);
    assert_eq!(find_bytes(b"ab", b"abc"), None);
    assert_eq!(find_bytes(b"a[c", b"a{c"), None);
}

#[test]
fn an_executable_names_what_it_needs() {
    assert!(needs_eax(Some(b"..eaxdirectsoundcreate8..")));
    assert!(!needs_eax(Some(b"nothing")));
    assert!(!needs_eax(None));
    assert_eq!(detect_drm(Some(b"..UBIORBITAPI_R2_LOADER.dll..upc")), Drm::OrbitR2);
    assert_eq!(detect_drm(Some(b"uplay_r1_loader.dll")), Drm::UplayR1);
    assert_eq!(detect_drm(None), Drm::UplayR1);
}

#[test]
fn loaders_of_both_generations() {
    let names = |d| loaders_for(d).iter().map(|p| p.name).collect::<Vec<_>>();
    let old = vec!["uplay_r1_loader64.dll", "uplay_r1_loader.dll", "ubiorbitapi_r1_loader64.dll"];
    assert_eq!(names(Drm::UplayR1), old);
    let l = loaders_for(Drm::OrbitR2);
    assert_eq!(l.len(), 5);
    assert_eq!((l[3].name, l[3].loader), ("ubiorbitapi_r2_loader.dll", Loader::OrbitR2x32));
    assert_eq!((l[4].name, l[4].loader), ("upc_r1_loader.dll", Loader::UplayR1x32));
    assert_eq!(l[2].loader, Loader::UplayR1x64);
}

#[test]
fn a_file_of_the_game_is_kept_once() {
    assert!(backs_up(true, false, false));
    assert!(!backs_up(false, false, false));
    assert!(!backs_up(true, true, false));
    assert!(!backs_up(true, false, true));
    assert_eq!(backup_name("eax.dll"), "eax.dll.orig");
    assert!(is_our_loader(Some(20), &vec![10, 20, 30]));
    assert!(!is_our_loader(Some(21), &vec![10, 20, 30]));
    assert!(!is_our_loader(None, &vec![10]));
}

#[test]
fn two_deployments_in_a_row_keep_the_file_of_the_game() {
    fn deploy(p: &mut (Option<Vec<u8>>, Option<Vec<u8>>), loader: &[u8], lens: &Vec<u64>) {
        let len = p.0.as_ref().map(|b| b.len() as u64);
        if backs_up(p.0.is_some(), p.1.is_some(), is_our_loader(len, lens)) {
            p.1 = p.0.take();
        }
        p.0 = Some(loader.to_vec());
    }
    let lens = vec![4, 6];
    let mut p = (Some(b"the game's".to_vec()), None);
    deploy(&mut p, b"ours", &lens);
    assert_eq!(p, (Some(b"ours".to_vec()), Some(b"the game's".to_vec())));
    deploy(&mut p, b"ours", &lens);
    assert_eq!(p, (Some(b"ours".to_vec()), Some(b"the game's".to_vec())));
    p.0 = Some(b"updated".to_vec());
    deploy(&mut p, b"newest", &lens);
    assert_eq!(p, (Some(b"newest".to_vec()), Some(b"the game's".to_vec())));
    let mut p = (None, None);
    deploy(&mut p, b"ours", &lens);
    deploy(&mut p, b"newest", &lens);
    assert_eq!(p, (Some(b"newest".to_vec()), None));
}

#[test]
fn the_ini_of_the_loader() {
    assert_eq!(
        uplay_ini(&account()),
        "[Uplay]\r\nIsAppOwned=1\r\nUplayConnection=0\r\nAppId=273\r\nUsername=M\"e\r\n\
         Email=me@x.y\r\nPassword=p\\w\r\nLanguage=en-US\r\nCdKey=\r\nUserId=u-1\r\n\
         TickedId=tick\r\nSavePath=Default\r\n"
    );
}

#[test]
fn the_toml_of_the_loader() {
    let t = uplay_toml(&account(), "G\\\"", true, false);
    assert_eq!(
        t,
        "[Uplay]\nName = \"G\\\\\\\"\"\nSaves = \"Saves\"\nCdKeys = [\"\"]\nLanguage = \"en-US\"\n\
         OfflineMode = true\nInstallHooks = false\n\n[Uplay.Log]\nWrite = false\n\
         Path = \"Uplay.log\"\n\n[Uplay.Profile]\nAccountId = \"u-1\"\nEmail = \"me@x.y\"\n\
         Username = \"M\\\"e\"\nPassword = \"p\\\\w\"\nTicket = \"tick\"\n"
    );
}

#[test]
fn the_toml_of_the_loader_reads_back() {
    let t = uplay_toml(&account(), "G\\\"", false, true);
    let v: toml::Value = toml::from_str(&t).unwrap();
    let u = &v["Uplay"];
    assert_eq!(u["Name"].as_str().unwrap(), "G\\\"");
    assert_eq!(u["OfflineMode"].as_bool().unwrap(), false);
    assert_eq!(u["Log"]["Write"].as_bool().unwrap(), true);
    assert_eq!(u["Profile"]["Username"].as_str().unwrap(), "M\"e");
    assert_eq!(u["Profile"]["Password"].as_str().unwrap(), "p\\w");
    let v: toml::Value = toml::from_str(&orbit_toml(&account(), "N", true)).unwrap();
    assert_eq!(v["Orbit"]["ProductId"].as_integer().unwrap(), 273);
    assert_eq!(v["Orbit"]["Profile"]["AccountId"].as_str().unwrap(), "u-1");
}

#[test]
fn the_toml_of_the_newer_loader() {
    assert_eq!(
        orbit_toml(&account(), "N", false),
        "[Orbit]\nName = \"N\"\nProductId = 273\nSaves = \"Saves\"\nCdKeys = [\"\"]\n\n\
         [Orbit.Log]\nWrite = false\nPath = \"Orbit.log\"\n\n[Orbit.Profile]\n\
         AccountId = \"u-1\"\nUsername = \"M\\\"e\"\nPassword = \"p\\\\w\"\n"
    );
}

#[test]
fn files_next_to_the_executable() {
    let names = |d| {
        config_files(d, &account(), "N", true, false).iter().map(|f| f.name).collect::<Vec<_>>()
    };
    assert_eq!(names(Drm::UplayR1), vec!["Uplay.toml", "Uplay.ini"]);
    assert_eq!(names(Drm::OrbitR2), vec!["Uplay.toml", "Uplay.ini", "Orbit.toml"]);
    let l = config_files(Drm::OrbitR2, &account(), "N", true, false);
    assert_eq!(l[1].text, uplay_ini(&account()));
    assert_eq!(l[2].text, orbit_toml(&account(), "N", false));
}

#[test]
fn escaping_for_toml() {
    assert_eq!(toml_escape("a\\b\"c"), "a\\\\b\\\"c");
    assert_eq!(toml_escape("plain"), "plain");
}

#[test]
fn a_game_is_offline_unless_it_is_told_otherwise() {
    assert!(is_offline(None));
    assert!(is_offline(Some("0")));
    assert!(is_offline(Some("TRUE")));
    assert!(!is_offline(Some("1")));
    assert!(!is_offline(Some("true")));
}

#[test]
fn games_run_at_the_root_or_in_their_system_directory() {
    assert_eq!(working_dir("/g", "/g/bin/game.exe"), "/g");
    assert_eq!(working_dir("/g", "/g/game.exe"), "/g");
    assert_eq!(working_dir("/g", "/g/sYsTeM/game.exe"), "/g/sYsTeM");
    assert_eq!(working_dir("/g", "/g/System/x/game.exe"), "/g");
    assert_eq!(working_dir("/g", ""), "/g");
}

#[test]
fn paths_inside_the_prefix() {
    assert_eq!(wine_path("/home/me/g"), "Z:\\home\\me\\g");
    assert_eq!(wine_path(""), "Z:");
}
