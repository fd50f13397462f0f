//! The places of the sidebar: the home folder, the person's own folders the desktop names in
//! `user-dirs.dirs`, and the root of the file system.
//!
//! Where the desktop keeps each folder is read from its files; what stays here is which of them
//! the sidebar lists, in which order, and the names and icons they are drawn with.

use vstd::prelude::*;

use crate::path::{is_same_path, same_path};
use crate::text::{push_range, views};

verus! {

/// What a place is, which decides its name and its icon.
#[derive(Debug, Clone, Copy, PartialEq, Eq, Structural)]
pub enum PlaceKind {
    /// The home folder.
    Home,
    /// The desktop folder.
    Desktop,
    /// The documents folder.
    Documents,
    /// The downloads folder.
    Downloads,
    /// The pictures folder.
    Pictures,
    /// The music folder.
    Music,
    /// The videos folder.
    Videos,
    /// The root of the file system.
    Root,
}

/// The part of the language keys (`explorer.place.<key>`) that names a place.
pub open spec fn key_text(kind: PlaceKind) -> Seq<char> {
    match kind {
        PlaceKind::Home => "home"@,
        PlaceKind::Desktop => "desktop"@,
        PlaceKind::Documents => "documents"@,
        PlaceKind::Downloads => "downloads"@,
        PlaceKind::Pictures => "pictures"@,
        PlaceKind::Music => "music"@,
        PlaceKind::Videos => "videos"@,
        PlaceKind::Root => "root"@,
    }
}

/// The icon key a place is drawn with, from the framework's icon set.
pub open spec fn icon_text(kind: PlaceKind) -> Seq<char> {
    match kind {
        PlaceKind::Home => "folder-home"@,
        PlaceKind::Desktop => "folder-desktop"@,
        PlaceKind::Documents => "folder-documents"@,
        PlaceKind::Downloads => "folder-downloads"@,
        PlaceKind::Pictures => "folder-pictures"@,
        PlaceKind::Music => "folder-music"@,
        PlaceKind::Videos => "folder-videos"@,
        PlaceKind::Root => "file-disk"@,
    }
}

impl PlaceKind {
    /// The part of the language keys (`explorer.place.<key>`) that names the place.
    pub fn key(self) -> (r: &'static str)
        ensures
            r@ == key_text(self),
    {
        match self {
            Self::Home => "home",
            Self::Desktop => "desktop",
            Self::Documents => "documents",
            Self::Downloads => "downloads",
            Self::Pictures => "pictures",
            Self::Music => "music",
            Self::Videos => "videos",
            Self::Root => "root",
        }
    }

    /// The icon key the place is drawn with, from the framework's icon set.
    pub fn icon(self) -> (r: &'static str)
        ensures
            r@ == icon_text(self),
    {
        match self {
            Self::Home => "folder-home",
            Self::Desktop => "folder-desktop",
            Self::Documents => "folder-documents",
            Self::Downloads => "folder-downloads",
            Self::Pictures => "folder-pictures",
            Self::Music => "folder-music",
            Self::Videos => "folder-videos",
            Self::Root => "file-disk",
        }
    }
}

/// One entry of the sidebar.
#[derive(Debug, Clone, PartialEq, Eq)]
pub struct Place {
    /// What it is.
    pub kind: PlaceKind,
    /// Where it is, with every link resolved.
    pub path: Vec<u8>,
}

/// How many of the person's own folders the sidebar can list.
pub const USER_FOLDERS: usize = 6;

/// The person's own folders, in the order the sidebar lists them.
pub open spec fn user_kind(i: int) -> PlaceKind {
    if i == 0 {
        PlaceKind::Desktop
    } else if i == 1 {
        PlaceKind::Documents
    } else if i == 2 {
        PlaceKind::Downloads
    } else if i == 3 {
        PlaceKind::Pictures
    } else if i == 4 {
        PlaceKind::Music
    } else {
        PlaceKind::Videos
    }
}

/// The person's own folder `i` of the sidebar's order: desktop, documents, downloads, pictures,
/// music, videos.
pub fn user_folder(i: usize) -> (r: PlaceKind)
    requires
        i < USER_FOLDERS,
    ensures
        r == user_kind(i as int),
{
    match i {
        0 => PlaceKind::Desktop,
        1 => PlaceKind::Documents,
        2 => PlaceKind::Downloads,
        3 => PlaceKind::Pictures,
        4 => PlaceKind::Music,
        _ => PlaceKind::Videos,
    }
}

/// What each place stands for.
pub open spec fn place_view(places: Seq<Place>) -> Seq<(PlaceKind, Seq<u8>)> {
    Seq::new(places.len(), |i: int| (places[i].kind, places[i].path@))
}

/// The user folders of `found` the sidebar lists, the first `n` of them: those there, other than
/// the home folder itself.
pub open spec fn listed_user_folders(home: Seq<u8>, found: Seq<Option<Seq<u8>>>, n: int) -> Seq<(PlaceKind, Seq<u8>)>
    decreases n,
{
    if n <= 0 {
        Seq::empty()
    } else {
        let before = listed_user_folders(home, found, n - 1);
        match found[n - 1] {
            Some(p) if !same_path(p, home) => before.push((user_kind(n - 1), p)),
            _ => before,
        }
    }
}

/// The places of a person whose home folder is `home`: home, the user folders the sidebar lists,
/// and `root`.
pub open spec fn places_of(home: Seq<u8>, found: Seq<Option<Seq<u8>>>, root: Seq<u8>) -> Seq<(PlaceKind, Seq<u8>)> {
    seq![(PlaceKind::Home, home)] + listed_user_folders(home, found, found.len() as int) + seq![
        (PlaceKind::Root, root),
    ]
}

fn copy(b: &[u8]) -> (r: Vec<u8>)
    ensures
        r@ == b@,
{
    let mut out: Vec<u8> = Vec::new();
    push_range(&mut out, b, 0, b.len());
    assert(b@.subrange(0, b@.len() as int) =~= b@);
    out
}

/// The places of a person whose home folder is `home` and whose own folders, in the order of
/// [`user_folder`], are `found`: each a folder that is there, with every link resolved, or `None`
/// when it is not. Home comes first, then the user folders that are there, then `root`.
///
/// A user folder that is the home folder itself is left out: `xdg-user-dirs` points a folder it has
/// given up on at `$HOME`, and a second "Home" under another name would only confuse.
pub fn places(home: &[u8], found: &Vec<Option<Vec<u8>>>, root: &[u8]) -> (r: Vec<Place>)
    requires
        found@.len() == USER_FOLDERS,
    ensures
        place_view(r@) == places_of(
            home@,
            Seq::new(found@.len(), |i: int| match found@[i] {
                Some(p) => Some(p@),
                None => None,
            }),
            root@,
        ),
{
    let ghost seen = Seq::new(found@.len(), |i: int| match found@[i] {
        Some(p) => Some(p@),
        None => None,
    });
    let mut out: Vec<Place> = Vec::new();
    out.push(Place { kind: PlaceKind::Home, path: copy(home) });
    let mut k: usize = 0;
    assert(place_view(out@) =~= seq![(PlaceKind::Home, home@)] + listed_user_folders(home@, seen, 0));
    while k < found.len()
        invariant
            found@.len() == USER_FOLDERS,
            seen.len() == found@.len(),
            forall|i: int| 0 <= i < found@.len() ==> #[trigger] seen[i] == match found@[i] {
                Some(p) => Some(p@),
                None => None::<Seq<u8>>,
            },
            k <= found@.len(),
            place_view(out@) == seq![(PlaceKind::Home, home@)] + listed_user_folders(home@, seen, k as int),
        decreases found@.len() - k,
    {
        let ghost before = place_view(out@);
        assert(seen[k as int] == match found@[k as int] {
            Some(p) => Some(p@),
            None => None::<Seq<u8>>,
        });
        match &found[k] {
            Some(path) => {
                if !is_same_path(path, home) {
                    out.push(Place { kind: user_folder(k), path: copy(path) });
                    assert(place_view(out@) =~= before.push((user_kind(k as int), path@)));
                }
            },
            None => {},
        }
        k += 1;
    }
    let ghost before = place_view(out@);
    out.push(Place { kind: PlaceKind::Root, path: copy(root) });
    assert(place_view(out@) =~= before.push((PlaceKind::Root, root@)));
    out
}

/// Whether the user folder `i` of `found` is listed: it is there and it is not the home folder.
pub open spec fn is_listed_folder(home: Seq<u8>, found: Seq<Option<Seq<u8>>>, i: int) -> bool {
    found[i] matches Some(p) && !same_path(p, home)
}

/// The user folders of `found` that are listed, by their places, in order.
pub open spec fn listed_places(home: Seq<u8>, found: Seq<Option<Seq<u8>>>, n: int) -> Seq<int> {
    Seq::new(n as nat, |i: int| i).filter(|i: int| is_listed_folder(home, found, i))
}

/// The place of user folder `i`, as the sidebar shows it.
pub open spec fn user_place(found: Seq<Option<Seq<u8>>>, i: int) -> (PlaceKind, Seq<u8>) {
    (user_kind(i), found[i]->0)
}

proof fn lemma_listed(home: Seq<u8>, found: Seq<Option<Seq<u8>>>, n: int)
    requires
        0 <= n <= found.len(),
    ensures
        listed_user_folders(home, found, n) == listed_places(home, found, n).map_values(|i: int| user_place(found, i)),
    decreases n,
{
    let f = |i: int| is_listed_folder(home, found, i);
    let g = |i: int| user_place(found, i);
    if n == 0 {
        assert(Seq::new(0, |i: int| i).filter(f) =~= Seq::<int>::empty()) by {
            reveal_with_fuel(Seq::<_>::filter, 1);
        }
        assert(listed_places(home, found, 0).map_values(g) =~= Seq::empty());
    } else {
        lemma_listed(home, found, n - 1);
        let all = Seq::new(n as nat, |i: int| i);
        assert(all.drop_last() =~= Seq::new((n - 1) as nat, |i: int| i));
        assert(all.last() == n - 1);
        assert(all.filter(f) == if f(n - 1) {
            all.drop_last().filter(f).push(n - 1)
        } else {
            all.drop_last().filter(f)
        }) by {
            reveal_with_fuel(Seq::<_>::filter, 1);
        }
        let before = listed_places(home, found, n - 1);
        if f(n - 1) {
            assert(before.push(n - 1).map_values(g) =~= before.map_values(g).push(g(n - 1)));
        }
    }
}

/// The sidebar lists home first and the root last, and between them every user folder that is
/// there and is not the home folder, in the order of the user folders, each with its own kind: no
/// other, and none left out.
pub proof fn places_are_home_the_folders_there_and_root(
    home: Seq<u8>,
    found: Seq<Option<Seq<u8>>>,
    root: Seq<u8>,
)
    ensures
        places_of(home, found, root) == seq![(PlaceKind::Home, home)] + listed_places(
            home,
            found,
            found.len() as int,
        ).map_values(|i: int| user_place(found, i)) + seq![(PlaceKind::Root, root)],
{
    lemma_listed(home, found, found.len() as int);
}

} // verus!
