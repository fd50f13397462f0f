use qexp::app::nav::{
    above, child_key, crumbs, deepest, is_within_key, key_depth, name_of, parent_key, settle_goal, shown, typed_path,
    way_down, within, History, Level, Settle,
};
use qexp::path::{file_name, is_same_path, join_path, path_parts, strip_root};

fn strings(list: &[&str]) -> Vec<String> {
    list.iter().map(|s| s.to_string()).collect()
}

#[test]
fn a_key_is_within_its_folder_and_not_a_longer_name() {
    assert!(is_within_key("home/notes", "home"));
    assert!(is_within_key("home", "home"));
    assert!(!is_within_key("homework", "home"));
    assert!(!is_within_key("home", "home/notes"));
    assert!(within("anything/at/all", ""));
    assert!(!is_within_key("a", ""));
}

#[test]
fn a_key_names_its_folder_and_its_entry() {
    assert_eq!(parent_key("home/notes/todo.md"), "home/notes");
    assert_eq!(parent_key("home"), "");
    assert_eq!(name_of("home/notes/todo.md"), "todo.md");
    assert_eq!(name_of("home"), "home");
    assert_eq!(child_key("", "home"), "home");
    assert_eq!(child_key("home", "notes"), "home/notes");
    assert_eq!(key_depth(""), 0);
    assert_eq!(key_depth("home/notes/deep"), 3);
}

#[test]
fn the_folders_above_come_from_the_top_down() {
    assert_eq!(above("home/notes/deep"), strings(&["home", "home/notes"]));
    assert_eq!(above("home"), Vec::<String>::new());
    assert_eq!(above(""), Vec::<String>::new());
}

#[test]
fn the_way_down_is_the_next_folder_towards_where_one_came_from() {
    assert_eq!(way_down("home", "home/notes/deep"), Some("notes".to_owned()));
    assert_eq!(way_down("", "home/notes"), Some("home".to_owned()));
    assert_eq!(way_down("home/notes", "home/notes"), None);
    assert_eq!(way_down("home/notes", "home"), None);
    assert_eq!(way_down("home", "homework/x"), None);
}

#[test]
fn the_path_starts_at_home_when_home_holds_the_folder() {
    let bar = crumbs("home/notes/deep", Some("home"));
    assert!(bar.at_home);
    assert_eq!(bar.start, "home");
    assert_eq!(
        bar.parts,
        vec![("notes".to_owned(), "home/notes".to_owned()), ("deep".to_owned(), "home/notes/deep".to_owned())]
    );
    let home = crumbs("home", Some("home"));
    assert!(home.at_home && home.parts.is_empty());
    let elsewhere = crumbs("etc/x", Some("home"));
    assert!(!elsewhere.at_home);
    assert_eq!(elsewhere.start, "");
    assert_eq!(elsewhere.parts, vec![("etc".to_owned(), "etc".to_owned()), ("x".to_owned(), "etc/x".to_owned())]);
    let rootless = crumbs("home/notes", None);
    assert!(!rootless.at_home);
    assert_eq!(rootless.parts.len(), 2);
}

#[test]
fn the_history_walks_back_and_forward_like_a_browser() {
    let mut history = History::new();
    assert!(!history.can_go_back() && !history.can_go_forward());
    history.go("home".into(), "home/notes");
    history.go("home/notes".into(), "home/notes/deep");
    assert_eq!(history.back("home/notes/deep".into()), Some("home/notes".to_owned()));
    assert_eq!(history.back("home/notes".into()), Some("home".to_owned()));
    assert_eq!(history.back("home".into()), None);
    assert!(history.can_go_forward());
    assert_eq!(history.forward("home".into()), Some("home/notes".to_owned()));
    history.go("home/notes".into(), "home/Documents");
    assert!(!history.can_go_forward(), "nothing ahead after a new step");
    assert_eq!(history.back("home/Documents".into()), Some("home/notes".to_owned()));
}

#[test]
fn a_step_to_the_same_folder_is_not_recorded() {
    let mut history = History::new();
    history.go("home".into(), "home");
    assert!(!history.can_go_back());
    history.step("home".into());
    assert!(history.can_go_back());
}

#[test]
fn going_back_and_forward_again_returns_to_the_same_folder() {
    let mut history = History::new();
    history.go("a".into(), "a/b");
    history.go("a/b".into(), "a/b/c");
    let back = history.back("a/b/c".into()).unwrap();
    assert_eq!(history.forward(back), Some("a/b/c".to_owned()));
    assert!(!history.can_go_forward());
}

#[test]
fn the_pillar_goes_to_the_deepest_place_holding_the_folder() {
    let keys = vec![Some("home".to_owned()), Some("home/notes".to_owned()), None, Some("".to_owned())];
    assert_eq!(deepest("home/notes/deep", &keys, false), Some((1, "home/notes".to_owned())));
    assert_eq!(deepest("etc", &keys, false), Some((3, "".to_owned())));
    assert_eq!(deepest("etc", &keys[..3].to_vec(), false), None);
    let twice = vec![Some("home".to_owned()), Some("home".to_owned())];
    assert_eq!(deepest("home/x", &twice, false), Some((0, "home".to_owned())));
    assert_eq!(deepest("home/x", &twice, true), Some((1, "home".to_owned())));
}

#[test]
fn a_typed_path_starts_at_home_the_root_or_the_folder_shown() {
    let home: &[u8] = b"/r/home";
    let shown: &[u8] = b"/r/home/notes";
    assert_eq!(typed_path("~/notes/todo.md", home, shown), b"/r/home/notes/todo.md".to_vec());
    assert_eq!(typed_path("~", home, shown), b"/r/home/".to_vec());
    assert_eq!(typed_path("~//x", home, shown), b"/r/home/x".to_vec());
    assert_eq!(typed_path("  /etc  ", home, shown), b"/etc".to_vec());
    assert_eq!(typed_path("deep", home, shown), b"/r/home/notes/deep".to_vec());
    assert_eq!(typed_path("~user", home, shown), b"/r/home/notes/~user".to_vec());
    assert_eq!(typed_path("", home, shown), b"/r/home/notes/".to_vec());
}

#[test]
fn paths_are_the_same_by_their_names() {
    assert!(is_same_path(b"/a//b/", b"/a/b"));
    assert!(is_same_path(b"/a/./b", b"/a/b"));
    assert!(!is_same_path(b"/a/../b", b"/b"));
    assert!(!is_same_path(b"a/b", b"/a/b"));
    assert!(!is_same_path(b"./a", b"a"));
    assert_eq!(path_parts(b"//a/./b//"), vec![b"a".to_vec(), b"b".to_vec()]);
}

#[test]
fn a_path_below_the_root_is_known_by_its_key() {
    assert_eq!(strip_root(b"/r/a/b", b"/r"), Some(b"a/b".to_vec()));
    assert_eq!(strip_root(b"/r//a/./b/", b"/r/"), Some(b"a/b".to_vec()));
    assert_eq!(strip_root(b"/r", b"/r"), Some(Vec::new()));
    assert_eq!(strip_root(b"/ra", b"/r"), None);
    assert_eq!(strip_root(b"r/a", b"/r"), None);
    assert_eq!(strip_root(b"/x/y", b"/"), Some(b"x/y".to_vec()));
}

#[test]
fn a_path_is_joined_and_named() {
    assert_eq!(join_path(b"/a", b"b"), b"/a/b".to_vec());
    assert_eq!(join_path(b"/a/", b"b"), b"/a/b".to_vec());
    assert_eq!(join_path(b"/a", b"/b"), b"/b".to_vec());
    assert_eq!(join_path(b"", b"b"), b"b".to_vec());
    assert_eq!(file_name(b"/a/b/"), Some(b"b".to_vec()));
    assert_eq!(file_name(b"/"), None);
    assert_eq!(file_name(b"/a/.."), None);
    assert_eq!(file_name(b"notes.txt"), Some(b"notes.txt".to_vec()));
}

fn level(read: bool, holds_next: bool, loading: bool, unreadable: bool) -> Level {
    Level { read, holds_next, loading, unreadable }
}

#[test]
fn the_goal_is_reached_once_every_folder_on_the_way_holds_the_next() {
    let open = level(true, true, false, false);
    assert_eq!(settle_goal(&[open, open], false), Settle::Arrive);
    assert_eq!(settle_goal(&[], false), Settle::Arrive);
    assert_eq!(settle_goal(&[open, level(false, false, true, false)], false), Settle::Wait);
}

#[test]
fn a_folder_that_went_away_is_read_once_more_and_then_left_for_the_nearest() {
    let open = level(true, true, false, false);
    let without = level(true, false, false, false);
    assert_eq!(settle_goal(&[open, without], false), Settle::Reread);
    assert_eq!(settle_goal(&[open, without], true), Settle::Stop { depth: 1, unreadable: false });
    assert_eq!(settle_goal(&[open, level(true, false, true, false)], true), Settle::Wait);
    assert_eq!(settle_goal(&[level(true, false, false, true)], false), Settle::Stop { depth: 0, unreadable: true });
}

#[test]
fn a_path_under_home_is_shown_from_the_tilde() {
    assert_eq!(shown(b"/home/u", b"/home/u"), b"~".to_vec());
    assert_eq!(shown(b"/home/u/notes/deep", b"/home/u"), b"~/notes/deep".to_vec());
    assert_eq!(shown(b"/home/uu", b"/home/u"), b"/home/uu".to_vec());
    assert_eq!(shown(b"/etc", b"/home/u/"), b"/etc".to_vec());
}

#[test]
fn a_relative_base_is_stripped_component_by_component() {
    assert_eq!(strip_root(b"a/b/c", b"a"), Some(b"b/c".to_vec()));
    assert_eq!(strip_root(b"./a/b", b"."), Some(b"a/b".to_vec()));
    assert_eq!(strip_root(b"./a/b", b"a"), None);
    assert_eq!(strip_root(b"/a/b", b"a"), None);
    assert_eq!(strip_root(b"a/b", b"/a"), None);
    assert_eq!(strip_root(b"/a/b", b""), Some(b"//a/b".to_vec()));
    assert_eq!(strip_root(b"a", b""), Some(b"a".to_vec()));
    assert_eq!(shown(b"notes/todo.md", b"notes"), b"~/todo.md".to_vec());
}
