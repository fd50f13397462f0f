use qexp::favourites::{
    bookmarks, is_listed, load, local_path, parse, percent_decode, push_new, storable, take_in, to_bytes, FILE,
};

fn paths(list: &[&str]) -> Vec<Vec<u8>> {
    list.iter().map(|p| p.as_bytes().to_vec()).collect()
}

#[test]
fn broken_lines_and_repeats_are_skipped_and_the_rest_kept_in_order() {
    let found = parse(b"/a/b\n\nrelative/path\n/a/c\r\n/a/b\n/with\0nul\n");
    assert_eq!(found, paths(&["/a/b", "/a/c"]));
}

#[test]
fn percent_signs_are_decoded_and_a_lone_one_is_kept() {
    assert_eq!(percent_decode(b"/My%20Files/100%/%c3%9c"), "/My Files/100%/Ü".as_bytes());
}

#[test]
fn only_uris_of_this_machine_are_folders() {
    assert_eq!(local_path(b"file:///home/a%20b"), Some(b"/home/a b".to_vec()));
    assert_eq!(local_path(b"file://localhost/srv"), Some(b"/srv".to_vec()));
    assert_eq!(local_path(b"file://nas/share"), None);
    assert_eq!(local_path(b"sftp://host/home"), None);
}

#[test]
fn a_name_with_a_line_break_cannot_be_kept_on_a_line() {
    assert!(storable(b"/a/b c"));
    assert!(!storable(b"/a/b\nc"));
    assert!(!storable(b"relative"));
}

#[test]
fn a_written_list_reads_back_as_it_was() {
    let list = paths(&["/home/u/notes", "/srv/share", "/home/u/My Work"]);
    let bytes = to_bytes(&list);
    assert_eq!(bytes, b"/home/u/notes\n/srv/share\n/home/u/My Work\n".to_vec());
    assert_eq!(parse(&bytes), list);
    assert_eq!(to_bytes(&Vec::new()), Vec::<u8>::new());
    assert_eq!(parse(b""), Vec::<Vec<u8>>::new());
}

#[test]
fn the_same_folder_spelled_twice_is_kept_once() {
    assert_eq!(parse(b"/a/b\n/a//b/\n/a/./b\n/a/c\n"), paths(&["/a/b", "/a/c"]));
}

#[test]
fn a_new_absolute_path_is_added_at_the_end() {
    let mut list = paths(&["/a"]);
    assert!(push_new(&mut list, b"/b".to_vec()));
    assert!(!push_new(&mut list, b"/a/".to_vec()));
    assert!(!push_new(&mut list, b"b".to_vec()));
    assert_eq!(list, paths(&["/a", "/b"]));
    assert!(is_listed(&list, b"/b/"));
    assert!(!is_listed(&list, b"/c"));
}

#[test]
fn the_gtk_bookmarks_give_their_local_folders_in_order() {
    let file = b"file:///home/u/Documents\nfile:///home/u/My%20Work Work\r\nsftp://host/x Remote\n\nfile://localhost/srv\n";
    assert_eq!(bookmarks(file), paths(&["/home/u/Documents", "/home/u/My Work", "/srv"]));
    assert_eq!(bookmarks(b""), Vec::<Vec<u8>>::new());
}

#[test]
fn the_kept_list_wins_and_the_bookmarks_are_taken_in_only_once() {
    let kept = paths(&["/mine"]);
    let marked = paths(&["/gtk"]);
    assert_eq!(load(Some(kept.clone()), Some(marked.clone())), (kept, false));
    assert_eq!(load(Some(Vec::new()), Some(marked.clone())), (Vec::new(), false));
    assert_eq!(load(None, Some(marked.clone())), (marked, true));
    assert_eq!(load(None, None), (Vec::new(), false));
}

#[test]
fn the_list_lives_in_its_own_file() {
    assert_eq!(FILE, "favorites");
}

#[test]
fn every_byte_written_with_its_digits_reads_back() {
    let bytes: Vec<u8> = (0..=255u8).collect();
    let upper: String = bytes.iter().map(|b| format!("%{b:02X}")).collect();
    let lower: String = bytes.iter().map(|b| format!("%{b:02x}")).collect();
    assert_eq!(percent_decode(upper.as_bytes()), bytes);
    assert_eq!(percent_decode(lower.as_bytes()), bytes);
    assert_eq!(percent_decode(b"/no/percent here"), b"/no/percent here".to_vec());
    assert!(percent_decode(b"%zz%4").len() <= 5);
}

#[test]
fn the_bookmarks_taken_in_are_kept_once_and_read_back_on_the_next_start() {
    let found = paths(&["/home/u/Documents", "relative", "/home/u/Documents/", "/srv"]);
    let taken = take_in(&found);
    assert_eq!(taken, paths(&["/home/u/Documents", "/srv"]));
    let (first, to_write) = load(None, Some(taken.clone()));
    assert!(to_write);
    let written = to_bytes(&first);
    let (next, again) = load(Some(parse(&written)), Some(paths(&["/elsewhere"])));
    assert_eq!(next, taken);
    assert!(!again);
}
