use optima::orbit::{
    completed, savegame_infos, set_name, start_launcher, write_options, Delivery, Pending, Save,
    SaveFile,
};

fn save(id: u32, name: &str, size: u64) -> SaveFile {
    SaveFile { id, name: name.to_string(), size }
}

fn wide(s: &str) -> Vec<u16> {
    s.encode_utf16().collect()
}

#[test]
fn saved_games_are_described_in_order() {
    let l = savegame_infos(&vec![save(1, "aß", 5), save(2, "😀", 0x1_0000_0007)]).unwrap();
    assert_eq!((l[0].id, l[0].size), (1, 5));
    assert_eq!(l[0].name, vec![0x61, 0xdf, 0]);
    assert_eq!((l[1].id, l[1].size), (2, 7));
    assert_eq!(l[1].name, vec![0xd83d, 0xde00, 0]);
    assert!(savegame_infos(&vec![]).unwrap().is_empty());
}

#[test]
fn a_zero_within_a_name_cannot_be_told() {
    assert!(savegame_infos(&vec![save(1, "a\0b", 5)]).is_none());
    let l = savegame_infos(&vec![save(1, "ab\0", 5)]).unwrap();
    assert_eq!(l[0].name, vec![0x61, 0x62, 0]);
}

#[test]
fn answers_come_later_and_in_order() {
    let mut p = Pending::new();
    p.get_login_details(true, 100, 1);
    assert!(p.get_savegame_list(true, 200, 2, Some(vec![save(9, "x", 1)])));
    p.get_login_details(false, 300, 3);
    assert!(!p.get_savegame_list(false, 300, 3, Some(vec![])));
    assert!(!p.get_savegame_list(true, 300, 3, None));
    assert!(!p.get_savegame_list(true, 300, 3, Some(vec![save(9, "\0x", 1)])));
    assert!(matches!(
        p.next_delivery(),
        Some(Delivery::LoginDetails { listener: 100, request_id: 1 })
    ));
    p.defer(Delivery::LoginDetails { listener: 400, request_id: 4 });
    match p.next_delivery() {
        Some(Delivery::SavegameList { listener: 200, request_id: 2, saves }) => {
            assert_eq!(saves.len(), 1);
            assert_eq!(saves[0].id, 9);
        }
        other => panic!("{other:?}"),
    }
    assert!(matches!(p.next_delivery(), Some(Delivery::LoginDetails { request_id: 4, .. })));
    assert!(p.next_delivery().is_none());
}

#[test]
fn a_game_is_not_started_anew() {
    assert!(!start_launcher());
}

#[test]
fn listeners_hear_of_what_succeeded() {
    assert_eq!(completed(true, true, 5, 12), Some((5, 12)));
    assert_eq!(completed(true, false, 5, 12), None);
    assert_eq!(completed(false, true, 5, 12), None);
}

#[test]
fn a_saved_game_is_emptied_where_it_is_opened_anew() {
    let o = write_options(true);
    assert!(o.read && o.write && o.create && o.truncate);
    assert!(!write_options(false).truncate);
}

#[test]
fn a_saved_game_is_named() {
    let mut l = vec![Save { id: 1, name: "one".to_string() }];
    assert!(set_name(&mut l, 2, &wide("zwölf 😀")));
    assert!(set_name(&mut l, 1, &wide("uno")));
    let names: Vec<(u32, &str)> = l.iter().map(|s| (s.id, s.name.as_str())).collect();
    assert_eq!(names, vec![(1, "uno"), (2, "zwölf 😀")]);
}

#[test]
fn a_name_that_is_no_text_changes_nothing() {
    let mut l = vec![Save { id: 1, name: "one".to_string() }];
    assert!(!set_name(&mut l, 1, &[0xd83d]));
    assert!(!set_name(&mut l, 7, &[0x61, 0xde00]));
    assert_eq!(l.len(), 1);
    assert_eq!(l[0].name, "one");
}
