use optima::config::{
    auth_path, launch_cache_path, profile_path, session_over, Auth, Instant, LaunchCache, Profile,
};

fn with_expiration(s: &str) -> Auth {
    let mut a = Auth::default();
    a.expiration = s.to_string();
    a
}

#[test]
fn a_session_ends_at_its_expiration() {
    let a = with_expiration("2024-05-01T12:00:00Z");
    let end = Instant { seconds: 1714564800, nanos: 0 };
    assert!(a.is_expired_at(end));
    assert!(a.is_expired_at(Instant { seconds: 1714564801, nanos: 0 }));
    assert!(!a.is_expired_at(Instant { seconds: 1714564799, nanos: 999_999_999 }));
}

#[test]
fn an_offset_counts_in_an_expiration() {
    let a = with_expiration("2024-05-01T14:00:00.5+02:00");
    assert!(!a.is_expired_at(Instant { seconds: 1714564800, nanos: 0 }));
    assert!(a.is_expired_at(Instant { seconds: 1714564800, nanos: 500_000_000 }));
}

#[test]
fn a_session_without_a_readable_expiration_is_not_over() {
    let late = Instant { seconds: i64::MAX, nanos: 0 };
    assert!(!with_expiration("").is_expired_at(late));
    assert!(!with_expiration("   ").is_expired_at(late));
    assert!(!with_expiration("tomorrow").is_expired_at(late));
    assert!(!with_expiration("").is_expired());
    assert!(with_expiration("1969-12-31T23:59:59Z").is_expired());
    assert!(with_expiration("2001-01-01T00:00:00Z").is_expired());
    assert!(!with_expiration("9999-01-01T00:00:00Z").is_expired());
}

#[test]
fn the_end_is_compared_to_the_nanosecond() {
    let e = Instant { seconds: 10, nanos: 5 };
    assert!(session_over("x", Some(e), e));
    assert!(!session_over("x", Some(e), Instant { seconds: 10, nanos: 4 }));
    assert!(!session_over("", Some(e), e));
    assert!(!session_over("x", None, e));
}

#[test]
fn a_captured_ticket_is_all_that_is_known() {
    let a = Auth::of_ticket("abc");
    assert_eq!(a.ticket, "abc");
    assert_eq!(a.session_id, "");
    assert_eq!(a.profile_id, "");
    assert_eq!(a.remember_me_ticket, "");
    let b = a.clone();
    assert_eq!(b.ticket, "abc");
}

#[test]
fn a_profile_keeps_what_is_not_changed() {
    let mut p = Profile::default();
    assert!(p.update(Some("me@x.y".to_string()), None, Some("pw".to_string())));
    assert_eq!(p.email, "me@x.y");
    assert_eq!(p.username, "");
    assert!(!p.update(None, None, None));
    assert_eq!(p.password, "pw");
}

#[test]
fn a_profile_does_not_show_its_password() {
    let mut p = Profile::default();
    assert_eq!(
        p.describe(),
        vec![
            "Uplay player profile (fed to each game's Uplay.toml):".to_string(),
            "  email:    (unset — synthesized at launch)".to_string(),
            "  username: (unset — uses Ubisoft display name)".to_string(),
            "  password: (unset)".to_string(),
        ]
    );
    p.update(None, Some("Me".to_string()), Some("secret".to_string()));
    let l = p.describe();
    assert_eq!(l[2], "  username: Me");
    assert_eq!(l[3], "  password: ********");
}

#[test]
fn places_of_what_is_stored() {
    assert_eq!(auth_path("/d"), "/d/auth.toml");
    assert_eq!(profile_path("/d"), "/d/profile.toml");
    assert_eq!(launch_cache_path("/d", 273), "/d/launch_cache/273.toml");
    assert_ne!(launch_cache_path("/d", 27), launch_cache_path("/d", 273));
}

#[test]
fn an_empty_launch_cache() {
    let c = LaunchCache::default();
    assert_eq!(c.app_id, 0);
    assert_eq!(c.exe_rel, "");
    assert_eq!(c.install_reg, "");
}
