use optima::demux::OwnedGame;
use optima::library::{
    after_failed_run, backoff, count_installable, display_name, entry_line, find_product, heading,
    hides, install_dir, installable, listed_rows, listing, missing, next_run_step, owned, pad, row,
    shown, stored_manifest, title, RunEvent, RunStep, INSTALL_RETRIES,
};
use optima::retry::Retry;
use std::collections::HashMap;

fn product(id: u32, owned: Option<bool>, kind: Option<i32>, manifest: Option<&str>) -> OwnedGame {
    OwnedGame {
        product_id: id,
        owned,
        product_type: kind,
        latest_manifest: manifest.map(String::from),
        configuration: Some(format!("root: {{name: 'Game {id}'}}")),
        uplay_id: None,
    }
}

fn catalog() -> Vec<OwnedGame> {
    vec![
        product(30, Some(true), None, Some("")),
        product(10, Some(true), Some(0), Some("m10")),
        product(20, Some(true), Some(1), Some("m20")),
        product(15, Some(false), Some(0), Some("m15")),
        product(12, None, None, Some("m12")),
        product(5, Some(true), Some(0), None),
    ]
}

fn resolved() -> HashMap<u32, String> {
    let mut m = HashMap::new();
    m.insert(30, "m30".to_string());
    m
}

fn ids(l: &[&OwnedGame]) -> Vec<u32> {
    l.iter().map(|g| g.product_id).collect()
}

#[test]
fn only_owned_games_are_listed_in_order() {
    let c = catalog();
    assert_eq!(ids(&owned(&c, false)), vec![5, 10, 30]);
    assert_eq!(ids(&owned(&c, true)), vec![5, 10, 20, 30]);
}

#[test]
fn products_of_the_same_id_keep_their_order() {
    let c = vec![
        product(2, Some(true), None, Some("first")),
        product(1, Some(true), None, None),
        product(2, Some(true), None, Some("second")),
    ];
    let l = owned(&c, false);
    assert_eq!(l[1].latest_manifest.as_deref(), Some("first"));
    assert_eq!(l[2].latest_manifest.as_deref(), Some("second"));
}

#[test]
fn manifests_that_the_listing_lacks_are_asked_for() {
    let c = catalog();
    assert_eq!(missing(&owned(&c, false)), vec![5, 30]);
}

#[test]
fn a_game_with_a_build_is_installable() {
    let c = catalog();
    let l = owned(&c, false);
    let r = resolved();
    assert!(!installable(l[0], &r));
    assert!(installable(l[1], &r));
    assert!(installable(l[2], &r));
    assert_eq!(count_installable(&l, &r), 2);
    assert_eq!(ids(&shown(&l, &r, true)), vec![10, 30]);
    assert_eq!(ids(&shown(&l, &r, false)), vec![5, 10, 30]);
}

#[test]
fn when_games_without_a_build_are_hidden() {
    assert!(!hides(false, false, false));
    assert!(hides(false, true, false));
    assert!(hides(false, false, true));
    assert!(!hides(true, true, true));
}

#[test]
fn names_of_games() {
    let c = catalog();
    assert_eq!(title(&c[0]), Some("Game 30".to_string()));
    assert_eq!(display_name(None, 7), "7");
    assert_eq!(display_name(Some("x".to_string()), 7), "x");
    let r = row(&c[1], &resolved());
    assert_eq!((r.product_id, r.name.as_str(), r.installable), (10, "Game 10", true));
}

#[test]
fn rows_for_programs() {
    let c = catalog();
    let l: Vec<u32> = listed_rows(&c, &resolved(), false).iter().map(|r| r.product_id).collect();
    assert_eq!(l, vec![10, 30]);
    let l: Vec<u32> = listed_rows(&c, &resolved(), true).iter().map(|r| r.product_id).collect();
    assert_eq!(l, vec![5, 10, 20, 30]);
}

#[test]
fn padding_counts_characters() {
    assert_eq!(pad("äb", 4), "äb  ");
    assert_eq!(pad("abcde", 4), "abcde");
    assert_eq!(pad("äb", 4), format!("{:<4}", "äb"));
}

#[test]
fn how_a_game_reads() {
    let g = product(10, Some(true), Some(-2), None);
    let name = "x".to_string();
    assert_eq!(
        entry_line(&g, Some(name.clone()), true, false),
        format!("  {:<45}  (product_id=10)", name)
    );
    assert_eq!(
        entry_line(&g, None, false, true),
        format!(
            "  {:<45}  (product_id=10)  [owned=true type=-2]  [no Ubisoft build — Steam-linked/delisted]",
            "<unknown>"
        )
    );
    assert_eq!(heading(3, 2, 6), "3 owned games (2 installable, 6 total catalog entries):");
}

#[test]
fn the_whole_listing() {
    let c = catalog();
    let l = listing(&c, &resolved(), false, false);
    assert_eq!(l.len(), 4);
    assert_eq!(l[0], "3 owned games (2 installable, 6 total catalog entries):");
    assert!(l[1].starts_with("  Game 5 ") && l[1].ends_with("Steam-linked/delisted]"));
    assert!(l[2].ends_with("(product_id=10)"));
    let l = listing(&c, &resolved(), false, true);
    assert_eq!(l[0], "2 owned games (2 installable, 6 total catalog entries):");
    assert_eq!(l.len(), 3);
    let l = listing(&c, &resolved(), true, true);
    assert_eq!(l.len(), 5);
    assert!(l[1..].iter().all(|e| e.contains("[owned=true ")));
}

#[test]
fn only_an_owned_product_is_found_for_an_installation() {
    let c = catalog();
    assert!(find_product(&c, 15, true).is_none());
    assert!(find_product(&c, 12, true).is_none());
    assert_eq!(find_product(&c, 15, false).unwrap().product_id, 15);
    assert_eq!(find_product(&c, 20, true).unwrap().product_id, 20);
    assert!(find_product(&c, 99, false).is_none());
}

#[test]
fn manifests_that_the_listing_has() {
    let c = catalog();
    assert_eq!(stored_manifest(&c[1]), Some("m10".to_string()));
    assert_eq!(stored_manifest(&c[0]), None);
    assert_eq!(stored_manifest(&c[5]), None);
}

#[test]
fn where_games_are_installed() {
    assert_eq!(install_dir(None, "/home/me", 720), "/home/me/Games/optima/720");
    assert_eq!(install_dir(Some("/x".to_string()), "/home/me", 720), "/x");
    assert_ne!(install_dir(None, "/h", 7), install_dir(None, "/h", 70));
}

#[test]
fn waiting_grows_up_to_thirty_seconds() {
    assert_eq!(backoff(0), 0);
    assert_eq!(backoff(1), 3);
    assert_eq!(backoff(9), 27);
    assert_eq!(backoff(10), 30);
    assert_eq!(backoff(u32::MAX), 30);
}

#[test]
fn how_a_failed_installation_goes_on() {
    let mut r = Retry::new(INSTALL_RETRIES);
    let step = |r: &mut Retry, e| next_run_step(r, e);
    assert_eq!(step(&mut r, RunEvent::Failed), RunStep::Wait { seconds: 3 });
    assert_eq!(step(&mut r, RunEvent::Waited), RunStep::Reconnect);
    assert_eq!(step(&mut r, RunEvent::Reconnected(true)), RunStep::Run);
    assert_eq!(r.attempt, 1);
    assert_eq!(step(&mut r, RunEvent::Failed), RunStep::Wait { seconds: 6 });
    assert_eq!(step(&mut r, RunEvent::Reconnected(false)), RunStep::Exchange);
    assert_eq!(step(&mut r, RunEvent::Exchanged(true)), RunStep::Run);
    assert_eq!(step(&mut r, RunEvent::Exchanged(false)), RunStep::Run);
    assert_eq!(r.attempt, 2);
    let mut r = Retry { attempt: 30, limit: 30 };
    assert_eq!(step(&mut r, RunEvent::Failed), RunStep::GiveUp);
}

#[test]
fn an_installation_is_given_up_after_thirty_retries() {
    let mut r = Retry::new(INSTALL_RETRIES);
    let mut waits = Vec::new();
    while let Some(n) = after_failed_run(&mut r) {
        waits.push(n);
    }
    assert_eq!(waits.len(), 30);
    assert_eq!(&waits[..4], &[3, 6, 9, 12]);
    assert_eq!(waits[29], 30);
}
