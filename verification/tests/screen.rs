use qexp::app::favourites::{add_favourite, move_favourite, remove_favourite, target, Towards};
use qexp::app::launch::{decide, editor, split_words, Choice};
use qexp::app::open_with::{choosable, clamped, dialog_rows, first_usable, row_order};
use qexp::app::settings::{kept_switch, kept_view, view_at, view_index, view_name, view_named, FolderView};
use qexp::app::view::{layout, path_of_key, Layout};
use qexp::app::wallpaper::{after_look, is_picture, last_line, outcome, stop_waiting, Outcome, LOOK_MILLIS};
use qexp::app::{action_named, number, row_items, sidebar_entry, Action, Entry, RowItem};

fn paths(list: &[&str]) -> Vec<Vec<u8>> {
    list.iter().map(|p| p.as_bytes().to_vec()).collect()
}

fn strings(list: &[&str]) -> Vec<String> {
    list.iter().map(|s| s.to_string()).collect()
}

// --- Favourites ---

#[test]
fn a_favourite_moves_one_place_and_not_past_either_end() {
    let mut list = paths(&["/a", "/b", "/c"]);
    assert_eq!(move_favourite(&mut list, 2, Towards::Up), Some(1));
    assert_eq!(list, paths(&["/a", "/c", "/b"]));
    assert_eq!(move_favourite(&mut list, 0, Towards::Up), None);
    assert_eq!(list, paths(&["/a", "/c", "/b"]), "the top one stays at the top");
    assert_eq!(move_favourite(&mut list, 2, Towards::Down), None);
    assert_eq!(move_favourite(&mut list, 0, Towards::Down), Some(1));
    assert_eq!(list, paths(&["/c", "/a", "/b"]));
    assert_eq!(target(3, 1, Towards::Down), Some(2));
    assert_eq!(target(3, 2, Towards::Down), None);
    assert_eq!(target(3, 0, Towards::Up), None);
}

#[test]
fn moving_a_favourite_there_and_back_leaves_the_list_as_it_was() {
    let before = paths(&["/a", "/b", "/c", "/d"]);
    let mut list = before.clone();
    let to = move_favourite(&mut list, 1, Towards::Down).unwrap();
    assert_eq!(move_favourite(&mut list, to, Towards::Up), Some(1));
    assert_eq!(list, before);
}

#[test]
fn a_folder_is_added_once_and_only_when_it_can_be_kept() {
    let mut list = paths(&["/home/u/notes"]);
    assert!(add_favourite(&mut list, b"/home/u/notes/deep".to_vec()));
    assert!(!add_favourite(&mut list, b"/home/u/notes/".to_vec()), "never twice");
    assert!(!add_favourite(&mut list, b"/home/u/a\nb".to_vec()));
    assert!(!add_favourite(&mut list, b"notes".to_vec()));
    assert_eq!(list, paths(&["/home/u/notes", "/home/u/notes/deep"]));
}

#[test]
fn removing_a_favourite_takes_out_every_spelling_of_it() {
    let mut list = paths(&["/a", "/b", "/c"]);
    assert!(remove_favourite(&mut list, b"/b/"));
    assert_eq!(list, paths(&["/a", "/c"]));
    assert!(!remove_favourite(&mut list, b"/b"));
    assert_eq!(list, paths(&["/a", "/c"]));
}

// --- Opening ---

#[test]
fn the_editor_is_visual_then_editor_then_less() {
    assert_eq!(editor(Some("nvim -p"), Some("vi")), ["nvim", "-p"]);
    assert_eq!(editor(Some("  "), Some("vi")), ["vi"]);
    assert_eq!(editor(None, None), ["less"]);
}

#[test]
fn an_empty_editor_falls_back_to_less() {
    assert_eq!(editor(None, Some("\t")), ["less"]);
    assert_eq!(editor(None, Some(" emacs  -nw ")), ["emacs", "-nw"]);
    assert_eq!(split_words("  a  b\tc\n"), strings(&["a", "b", "c"]));
    assert_eq!(split_words(""), Vec::<String>::new());
}

#[test]
fn the_default_program_opens_a_file_when_it_can() {
    assert_eq!(decide(Some(1), &[true, true], &[true, true], false, false), Choice::App(1));
    // A default that cannot start gives way to the first that can.
    assert_eq!(decide(Some(1), &[false, false, true], &[true, true, true], false, false), Choice::App(2));
    assert_eq!(decide(None, &[true, true], &[false, true], false, false), Choice::App(1));
    assert_eq!(decide(Some(7), &[true], &[true], false, false), Choice::App(0));
}

#[test]
fn text_nothing_else_opens_goes_to_the_editor_and_anything_else_to_nothing() {
    assert_eq!(decide(None, &[false], &[true], true, true), Choice::Editor);
    assert_eq!(decide(None, &[], &[], true, false), Choice::Nothing);
    assert_eq!(decide(None, &[], &[], false, true), Choice::Nothing);
}

#[test]
fn the_dialog_lists_the_default_first() {
    assert_eq!(row_order(Some(2), 4), vec![2, 0, 1, 3]);
    assert_eq!(row_order(Some(0), 2), vec![0, 1]);
    assert_eq!(row_order(Some(9), 3), vec![0, 1, 2]);
    assert_eq!(row_order(None, 2), vec![0, 1]);
    assert_eq!(row_order(None, 0), Vec::<usize>::new());
}

#[test]
fn the_dialog_starts_on_the_first_row_that_can_be_chosen() {
    assert_eq!(first_usable(&[false, true, true]), 1);
    assert_eq!(first_usable(&[false, false]), 0);
    assert_eq!(first_usable(&[]), 0);
    assert!(choosable(&[false, true], 1));
    assert!(!choosable(&[false, true], 0));
    assert!(!choosable(&[false, true], 2));
    assert_eq!(clamped(5, 3), 2);
    assert_eq!(clamped(1, 3), 1);
    assert_eq!(clamped(4, 0), 0);
}

// --- Settings and the screen ---

#[test]
fn the_views_are_kept_by_name_and_the_list_is_the_default() {
    assert_eq!(view_named("list"), Some(FolderView::List));
    assert_eq!(view_named("grid"), Some(FolderView::Icons));
    assert_eq!(view_named("tree"), None);
    assert_eq!(view_name(FolderView::Tree), "list");
    assert_eq!(view_name(FolderView::Icons), "grid");
    assert_eq!(view_index(FolderView::Icons), 1);
    assert_eq!(view_index(FolderView::Tree), 0);
    assert_eq!(view_at(1), FolderView::Icons);
    assert_eq!(view_at(5), FolderView::List);
    assert_eq!(kept_view(FolderView::List), None);
    assert_eq!(kept_view(FolderView::Icons), Some("grid"));
    assert_eq!(kept_switch(false, false), None);
    assert_eq!(kept_switch(true, false), Some(true));
    assert_eq!(kept_switch(false, true), Some(false));
}

#[test]
fn the_layout_follows_the_size_of_the_screen() {
    assert_eq!(layout(120, 40), Layout::Wide);
    assert_eq!(layout(90, 40), Layout::Wide);
    assert_eq!(layout(89, 40), Layout::Narrow);
    assert_eq!(layout(48, 40), Layout::Narrow);
    assert_eq!(layout(47, 40), Layout::Bare);
    assert_eq!(layout(20, 6), Layout::Bare);
    assert_eq!(layout(19, 40), Layout::TooSmall);
    assert_eq!(layout(120, 5), Layout::TooSmall);
}

#[test]
fn a_row_s_key_is_joined_onto_the_root() {
    assert_eq!(path_of_key(b"/r", "a/b"), b"/r/a/b".to_vec());
    assert_eq!(path_of_key(b"/r", ""), b"/r".to_vec());
    assert_eq!(path_of_key(b"/", "a"), b"/a".to_vec());
    assert_eq!(path_of_key(b"/r/", "a//b"), b"/r/a/b".to_vec());
}

#[test]
fn the_keys_are_known_by_their_names() {
    assert_eq!(action_named("back", false), Some(Action::Back));
    assert_eq!(action_named("view-grid", false), Some(Action::ViewGrid));
    assert_eq!(action_named("open-with", false), Some(Action::OpenWith));
    assert_eq!(action_named("place-1", false), Some(Action::Place(0)));
    assert_eq!(action_named("place-12", false), Some(Action::Place(11)));
    assert_eq!(action_named("place-0", false), None);
    assert_eq!(action_named("place-x", false), None);
    assert_eq!(action_named("frobnicate", false), None);
}

#[test]
fn only_the_settings_page_s_own_keys_act_while_it_is_open() {
    assert_eq!(action_named("back", true), None);
    assert_eq!(action_named("place-1", true), None);
    assert_eq!(action_named("settings", true), Some(Action::CloseSettings));
    assert_eq!(action_named("cancel", true), Some(Action::CloseSettings));
    assert_eq!(action_named("help", true), Some(Action::Help));
    assert_eq!(action_named("settings", false), Some(Action::OpenSettings));
    assert_eq!(action_named("cancel", false), Some(Action::Cancel));
}

#[test]
fn a_number_is_read_as_a_whole_number() {
    assert_eq!(number("12"), Some(12));
    assert_eq!(number("+7"), Some(7));
    assert_eq!(number("007"), Some(7));
    assert_eq!(number(""), None);
    assert_eq!(number("+"), None);
    assert_eq!(number("-1"), None);
    assert_eq!(number("1a"), None);
    assert_eq!(number("99999999999999999999999"), None);
    assert_eq!(number(&usize::MAX.to_string()), Some(usize::MAX));
}

#[test]
fn the_favourites_are_counted_after_the_places() {
    assert_eq!(sidebar_entry(0, 4, 2), Entry::Place(0));
    assert_eq!(sidebar_entry(3, 4, 2), Entry::Place(3));
    assert_eq!(sidebar_entry(4, 4, 2), Entry::Favourite(0));
    assert_eq!(sidebar_entry(5, 4, 2), Entry::Favourite(1));
    assert_eq!(sidebar_entry(6, 4, 2), Entry::Nothing);
}

// --- Wallpaper ---

#[test]
fn pictures_are_known_by_their_names_in_any_case() {
    for name in ["harbour.png", "Harbour.JPG", "a.jpeg", "k.Gif", "w.webp", "two.dots.png"] {
        assert!(is_picture(name), "{name}");
    }
    for name in ["todo.md", "png", ".png", "notes.png.txt", "picture", "archive.tar.gz"] {
        assert!(!is_picture(name), "{name}");
    }
}

#[test]
fn what_qdesk_came_to_is_read_from_how_it_ended() {
    assert_eq!(outcome(true, "whatever", Some(0), "exit status: 0".into()), Outcome::Done);
    assert_eq!(
        outcome(false, "loading\nnot a picture qdesk can draw\n\n", Some(1), "exit status: 1".into()),
        Outcome::Said("not a picture qdesk can draw".into())
    );
    assert_eq!(outcome(false, "  \n", Some(3), "exit status: 3".into()), Outcome::Ended(3));
    assert_eq!(outcome(false, "", None, "signal: 9 (SIGKILL)".into()), Outcome::Error("signal: 9 (SIGKILL)".into()));
    assert_eq!(last_line(" one \n two \n"), Some("two".into()));
    assert_eq!(last_line("\n\n"), None);
}

#[test]
fn a_file_s_menu_has_qexp_s_own_items_by_its_kind() {
    assert_eq!(row_items("home/todo.md", 1, false, true), vec![RowItem::OpenWith]);
    assert_eq!(
        row_items("home/yedek.tar.gz", 1, false, true),
        vec![RowItem::OpenWith, RowItem::ExtractHere, RowItem::ExtractTo]
    );
    assert_eq!(row_items("home/Pictures/harbour.JPG", 0, false, true), vec![RowItem::OpenWith, RowItem::Wallpaper]);
}

#[test]
fn without_qdesk_a_picture_has_no_wallpaper_item() {
    assert_eq!(row_items("home/Pictures/harbour.png", 1, false, false), vec![RowItem::OpenWith]);
}

#[test]
fn a_folder_several_entries_and_the_root_have_none_of_qexp_s_items() {
    assert_eq!(row_items("home/album.png", 1, true, true), Vec::<RowItem>::new());
    assert_eq!(row_items("home/Pictures/a.png", 2, false, true), Vec::<RowItem>::new());
    assert_eq!(row_items("", 1, false, true), Vec::<RowItem>::new());
}

#[test]
fn a_program_that_could_never_start_is_not_listed() {
    assert_eq!(dialog_rows(Some(2), &[true, false, true, true]), vec![2, 0, 3]);
    assert_eq!(dialog_rows(Some(1), &[true, false]), vec![0]);
    assert_eq!(dialog_rows(None, &[false, false]), Vec::<usize>::new());
}

#[test]
fn qdesk_is_given_thirty_seconds_of_looks() {
    let mut waited = 0;
    let mut looks = 0;
    while !stop_waiting(waited) {
        waited = after_look(waited);
        looks += 1;
    }
    assert_eq!(looks, 30_000 / LOOK_MILLIS);
    assert!(!stop_waiting(29_999));
    assert!(stop_waiting(30_000));
    assert_eq!(after_look(u64::MAX - 1), u64::MAX);
}
