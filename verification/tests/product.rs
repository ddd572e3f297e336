use optima::product::{
    collect_executables, executable, find_settings_exe, first_executable, game_name,
    install_register, parse_config, pick_executable, title, walk_for_register, walk_for_settings,
    Yaml,
};

const CONFIG: &str = "
version: 2.0
root:
  name: l1
  sort_string: ' Sorted Title '
  start_game:
    offline:
      executables:
        - relative: GameMP.exe
          working_directory:
            register: HKEY_LOCAL_MACHINE\\SOFTWARE\\Ubisoft\\Game\\InstallDir
        - relative: GameSP.EXE
        - relative: GameMP.exe
        - relative: readme.txt
  tools:
    - relative: Tools\\Setup.exe
      internal_name: Game Settings
localizations:
  default:
    l1: '  Real Title  '
";

fn text(s: &str) -> Yaml {
    Yaml::Text(s.to_string())
}

fn mapping(l: Vec<(&str, Yaml)>) -> Yaml {
    Yaml::Mapping(l.into_iter().map(|(k, v)| (text(k), v)).collect())
}

fn some(s: &str) -> Option<String> {
    Some(s.to_string())
}

#[test]
fn the_title_is_looked_up_among_the_localizations() {
    assert_eq!(game_name(CONFIG), some("Real Title"));
}

#[test]
fn without_a_localization_the_title_is_the_sort_string() {
    assert_eq!(game_name("root: {name: l2, sort_string: ' S '}"), some("S"));
    assert_eq!(game_name("root: {sort_string: S}"), some("S"));
}

#[test]
fn without_either_the_title_is_the_key() {
    assert_eq!(game_name("root: {name: ' raw '}"), some(" raw "));
    assert_eq!(game_name("root: {name: 5}"), None);
    assert_eq!(game_name("name: x"), None);
    assert_eq!(game_name("a: [unclosed"), None);
}

#[test]
fn a_tag_does_not_hide_a_text() {
    assert_eq!(game_name("root: !t {name: !u x}"), some("x"));
    let v = mapping(vec![("root", mapping(vec![("name", Yaml::Tagged(Box::new(text("y"))))]))]);
    assert_eq!(title(&v), some("y"));
}

#[test]
fn executables_are_collected_once_and_in_order() {
    let v = parse_config(CONFIG).unwrap();
    let mut out = vec!["GameSP.EXE".to_string()];
    collect_executables(&v, &mut out);
    assert_eq!(out, vec!["GameSP.EXE", "GameMP.exe", "Tools\\Setup.exe"]);
}

#[test]
fn the_single_player_executable_is_preferred() {
    assert_eq!(first_executable(CONFIG), some("GameSP.EXE"));
    assert_eq!(first_executable("a: {relative: x.exe}\nb: {relative: y.exe}"), some("x.exe"));
    assert_eq!(first_executable("a: {relative: x.txt}"), None);
    assert_eq!(first_executable("a: [unclosed"), None);
    let l = vec!["SPMP.exe".to_string(), "b.exe".to_string(), "gamesp.exe".to_string()];
    assert_eq!(pick_executable(&l), some("gamesp.exe"));
    assert_eq!(pick_executable(&vec![]), None);
    assert_eq!(
        first_executable("a:\n- relative: Game.exe\n- relative: Compiled/AC3SP.exe\n"),
        some("Compiled/AC3SP.exe")
    );
    assert_eq!(
        first_executable("a:\n- relative: Game.exe\n- relative: SP/Tool.exe\n"),
        some("Game.exe")
    );
}

#[test]
fn an_executable_under_a_tag_is_not_walked_to() {
    let inner = mapping(vec![("relative", text("x.exe"))]);
    assert_eq!(executable(&Yaml::Sequence(vec![inner])), some("x.exe"));
    let inner = mapping(vec![("relative", text("x.exe"))]);
    assert_eq!(executable(&Yaml::Tagged(Box::new(inner))), None);
}

#[test]
fn letters_beyond_ascii_count_in_either_case() {
    // The upper case form of the ligature is `ST`, that of the sharp s is `SS`.
    let l = vec!["a.exe".to_string(), "ßp.exe".to_string()];
    assert_eq!(pick_executable(&l), some("ßp.exe"));
    assert_eq!(find_settings_exe("a: {relative: x.exe, İnternal_name: settings}"), None);
}

#[test]
fn the_settings_application_marks_itself() {
    assert_eq!(find_settings_exe(CONFIG), some("Tools\\Setup.exe"));
    assert_eq!(find_settings_exe("{relative: a.exe, NAME: Config tool}"), some("a.exe"));
    assert_eq!(find_settings_exe("{relative: a.exe, title: Config tool}"), None);
    assert_eq!(find_settings_exe("{relative: a.txt, name: Config tool}"), None);
}

#[test]
fn a_settings_application_that_was_found_stays() {
    let v = parse_config(CONFIG).unwrap();
    let mut found = some("first.exe");
    walk_for_settings(&v, &mut found);
    assert_eq!(found, some("first.exe"));
}

#[test]
fn the_registry_location_is_found() {
    assert_eq!(
        install_register(CONFIG),
        some("HKEY_LOCAL_MACHINE\\SOFTWARE\\Ubisoft\\Game\\InstallDir")
    );
    assert_eq!(install_register("register: HKLM\\x"), None);
}

#[test]
fn the_location_of_the_working_directory_comes_first() {
    let c = "tool:\n  register: HKEY_CURRENT_USER\\A\\B\nworking_directory:\n  register: HKEY_LOCAL_MACHINE\\C\\D\n";
    assert_eq!(install_register(c), some("HKEY_LOCAL_MACHINE\\C\\D"));
    let c = "register: HKEY_A\na:\n- working_directory: {x: y}\n- b: {working_directory: {register: HKEY_B}}\n- working_directory: {register: HKEY_C}\n";
    assert_eq!(install_register(c), some("HKEY_B"));
    let c = "register: HKEY_A\nworking_directory: {register: none}\n";
    assert_eq!(install_register(c), some("HKEY_A"));
    let c = "working_directory: {a: {working_directory: {register: HKEY_A}}, register: HKEY_B}\n";
    assert_eq!(install_register(c), some("HKEY_B"));
    assert_eq!(install_register("working_directory: HKEY_A\n"), None);
}

#[test]
fn a_mapping_names_its_own_location_before_its_values() {
    let c = "a: {register: HKEY_A\\x}\nregister: hkey_b\\y\nz: {register: HKEY_C\\z}";
    assert_eq!(install_register(c), some("hkey_b\\y"));
    let v = parse_config(c).unwrap();
    let mut found = some("kept");
    walk_for_register(&v, &mut found);
    assert_eq!(found, some("kept"));
}
