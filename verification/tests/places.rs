use qexp::places::{places, user_folder, PlaceKind, USER_FOLDERS};

#[test]
fn without_the_file_there_are_home_and_root() {
    let found = places(b"/nowhere/home", &vec![None; USER_FOLDERS], b"/");
    assert_eq!(found.len(), 2);
    assert_eq!((found[0].kind, found[1].kind), (PlaceKind::Home, PlaceKind::Root));
}

#[test]
fn the_user_folders_there_come_between_home_and_root_in_order() {
    let found = vec![
        Some(b"/h/Masa\xc3\xbcst\xc3\xbc".to_vec()),
        None,
        Some(b"/h/Indirilenler".to_vec()),
        Some(b"/h/Resimler".to_vec()),
        None,
        Some(b"/h/".to_vec()),
    ];
    let listed = places(b"/h", &found, b"/");
    let kinds: Vec<PlaceKind> = listed.iter().map(|place| place.kind).collect();
    assert_eq!(
        kinds,
        [PlaceKind::Home, PlaceKind::Desktop, PlaceKind::Downloads, PlaceKind::Pictures, PlaceKind::Root],
        "videos is home itself"
    );
    assert_eq!(listed[1].path, b"/h/Masa\xc3\xbcst\xc3\xbc".to_vec());
    assert_eq!(listed[0].path, b"/h".to_vec());
    assert_eq!(listed[4].path, b"/".to_vec());
}

#[test]
fn the_user_folders_have_the_sidebar_s_order() {
    let order: Vec<PlaceKind> = (0..USER_FOLDERS).map(user_folder).collect();
    assert_eq!(
        order,
        [
            PlaceKind::Desktop,
            PlaceKind::Documents,
            PlaceKind::Downloads,
            PlaceKind::Pictures,
            PlaceKind::Music,
            PlaceKind::Videos
        ]
    );
}

#[test]
fn each_place_has_its_name_and_icon() {
    assert_eq!(PlaceKind::Home.key(), "home");
    assert_eq!(PlaceKind::Root.key(), "root");
    assert_eq!(PlaceKind::Downloads.key(), "downloads");
    assert_eq!(PlaceKind::Home.icon(), "folder-home");
    assert_eq!(PlaceKind::Root.icon(), "file-disk");
    assert_eq!(PlaceKind::Videos.icon(), "folder-videos");
}
