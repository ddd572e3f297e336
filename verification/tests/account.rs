use optima::account::{
    account_step, asks_for_ticket, cached_register, chosen_cache, exe_base, exe_dir, exe_path,
    first_nonempty, known_register, launch_account, launch_args, launch_cache, launch_exe,
    launch_rel, resolve_email, AccountStep, Overrides,
};
use optima::config::{Auth, LaunchCache, Profile};

fn some(s: &str) -> Option<String> {
    Some(s.to_string())
}

fn cache() -> LaunchCache {
    let mut c = LaunchCache::default();
    c.user_id = "uid".to_string();
    c.username = "Cached".to_string();
    c.ticket = "tick".to_string();
    c.app_id = 9;
    c.language = "en-US".to_string();
    c
}

fn nothing() -> Overrides {
    Overrides { username: None, email: None, password: None }
}

#[test]
fn the_first_text_that_is_not_blank() {
    assert_eq!(first_nonempty(&vec![None, some(" \t"), some("x "), some("y")]), some("x "));
    assert_eq!(first_nonempty(&vec![None, some("")]), None);
}

#[test]
fn an_address_is_made_up_from_the_name() {
    assert_eq!(resolve_email("Zoë X-9", None), "zox9@ubisoft.local");
    assert_eq!(resolve_email("---", None), "player@ubisoft.local");
    assert_eq!(resolve_email("Me", Some("a@b.c")), "a@b.c");
    assert_eq!(resolve_email("Me", Some("  ")), "me@ubisoft.local");
}

#[test]
fn the_player_of_a_game() {
    let mut p = Profile::default();
    let a = launch_account(nothing(), &p, &cache());
    assert_eq!(a.username, "Cached");
    assert_eq!(a.email, "cached@ubisoft.local");
    assert_eq!(a.password, "");
    assert_eq!((a.user_id.as_str(), a.ticket.as_str(), a.app_id), ("uid", "tick", 9));
    p.update(some("p@x.y"), some("Profiled"), some("pw"));
    let a = launch_account(nothing(), &p, &cache());
    assert_eq!((a.username.as_str(), a.email.as_str()), ("Profiled", "p@x.y"));
    assert_eq!(a.password, "pw");
    let o = Overrides { username: some("Asked"), email: some(" "), password: some("other") };
    let a = launch_account(o, &p, &cache());
    assert_eq!((a.username.as_str(), a.email.as_str()), ("Asked", "p@x.y"));
    assert_eq!(a.password, "other");
}

#[test]
fn a_player_without_a_name() {
    let mut c = cache();
    c.username = "  ".to_string();
    let a = launch_account(nothing(), &Profile::default(), &c);
    assert_eq!((a.username.as_str(), a.email.as_str()), ("Optima", "optima@ubisoft.local"));
}

#[test]
fn the_executable_of_a_launch() {
    assert_eq!(launch_exe(some("x.exe"), "a: {relative: y.exe}"), some("x.exe"));
    assert_eq!(launch_exe(None, "a: {relative: y.exe}"), some("y.exe"));
    assert_eq!(launch_exe(None, ""), None);
}

#[test]
fn what_is_kept_for_offline_launches() {
    let mut a = Auth::of_ticket("t");
    a.profile_id = "pid".to_string();
    let c = launch_cache(7, Some(9), "N".to_string(), "e.exe".to_string(), &a, None, None, None);
    assert_eq!(c.user_id, "pid");
    assert_eq!(c.username, "Optima");
    assert_eq!(c.email, "optima@ubisoft.local");
    assert_eq!(c.ticket, "OPTIMA");
    assert_eq!(c.app_id, 9);
    assert_eq!(c.language, "en-US");
    assert_eq!((c.name.as_str(), c.exe_rel.as_str(), c.install_reg.as_str()), ("N", "e.exe", ""));
    a.name_on_platform = "Me".to_string();
    let c = launch_cache(
        7,
        Some(3),
        "N".to_string(),
        "e.exe".to_string(),
        &a,
        some("real"),
        Some("a@b.c"),
        some("HKEY_X\\y"),
    );
    assert_eq!((c.username.as_str(), c.email.as_str()), ("Me", "a@b.c"));
    assert_eq!((c.ticket.as_str(), c.app_id), ("real", 7));
    assert_eq!(c.install_reg, "HKEY_X\\y");
}

#[test]
fn when_a_ticket_is_asked_for() {
    assert!(asks_for_ticket(Some(1)));
    assert!(!asks_for_ticket(Some(0)));
    assert!(!asks_for_ticket(None));
}

#[test]
fn the_account_that_was_resolved_comes_first() {
    let mut online = cache();
    online.username = "Online".to_string();
    assert_eq!(chosen_cache(Some(online), Some(cache())).unwrap().username, "Online");
    assert_eq!(chosen_cache(None, Some(cache())).unwrap().username, "Cached");
    assert!(chosen_cache(None, None).is_none());
}

#[test]
fn the_location_of_a_game_in_the_registry() {
    let mut c = cache();
    assert_eq!(cached_register(&c), None);
    c.install_reg = "HKEY_B\\y".to_string();
    assert_eq!(cached_register(&c), some("HKEY_B\\y"));
    assert_eq!(known_register(Some("register: HKEY_A\\x"), Some(&c)), some("HKEY_A\\x"));
    assert_eq!(known_register(Some("a: b"), Some(&c)), some("HKEY_B\\y"));
    assert_eq!(known_register(None, Some(&c)), some("HKEY_B\\y"));
    assert_eq!(known_register(None, None), None);
}

#[test]
fn an_executable_that_is_asked_for_goes_first() {
    let mut c = cache();
    c.exe_rel = "bin\\x.exe".to_string();
    assert_eq!(launch_rel(some("y.exe"), &c), "y.exe");
    assert_eq!(launch_rel(some(""), &c), "");
    assert_eq!(launch_rel(None, &c), "bin\\x.exe");
}

#[test]
fn where_the_account_comes_from() {
    assert_eq!(account_step(false, None), AccountStep::Resolve);
    assert_eq!(account_step(false, Some(true)), AccountStep::UseResolved);
    assert_eq!(account_step(false, Some(false)), AccountStep::LoadKept);
    assert_eq!(account_step(true, None), AccountStep::LoadKept);
}

#[test]
fn an_executable_in_its_place() {
    assert_eq!(exe_path("/g", "bin\\x.exe"), "/g/bin/x.exe");
    assert_eq!(exe_base("/g/bin/x.exe"), "x.exe");
    assert_eq!(exe_base("bin\\x.exe"), "x.exe");
    assert_eq!(exe_base("bin/a\\x.exe"), "x.exe");
    assert_eq!(exe_base(""), "");
    assert_eq!(exe_dir("/g/bin/x.exe", "/g"), "/g/bin");
    assert_eq!(exe_dir("/", "/g"), "/g");
}

#[test]
fn what_a_game_is_started_with() {
    assert_eq!(launch_args(Some(" -a  b "), true), vec!["-a", "b"]);
    assert_eq!(launch_args(None, true), vec!["-offline"]);
    assert!(launch_args(None, false).is_empty());
    assert!(launch_args(Some(""), true).is_empty());
}
