//! The decisions of the screen: where going back, forward, up or to a part of the path leads, the
//! favourites of the sidebar, which program a file opens with, how the screen is laid out at a
//! size, and what a row's menu offers. Drawing them, and the work they start, is the caller's.

pub mod favourites;
pub mod launch;
pub mod nav;
pub mod open_with;
pub mod settings;
pub mod view;
pub mod wallpaper;

use vstd::prelude::*;

use vstd::string::StrSliceExecFns;

use crate::archive::names::{archive_format, format_of};
use crate::text::chars_of;
use nav::{name_in, name_of};
use wallpaper::{is_picture, is_picture_name};

verus! {

/// What a key or a button of the screen asks for, by the name the keymap gives it.
#[derive(Debug, Clone, Copy, PartialEq, Eq, Structural)]
pub enum Action {
    /// Back through the history.
    Back,
    /// Forward through the history.
    Forward,
    /// Up to the folder above.
    Up,
    /// The path bar becomes a text field.
    Location,
    /// The sidebar opens over the folder on a narrow screen, or closes.
    Places,
    /// Hidden entries are shown or not, the other way from now.
    Hidden,
    /// The folder is drawn as a list.
    ViewList,
    /// The folder is drawn as icons.
    ViewGrid,
    /// The folder is drawn as a tree.
    ViewTree,
    /// The settings page opens.
    OpenSettings,
    /// The settings page closes.
    CloseSettings,
    /// The key overview opens.
    Help,
    /// Esc: whatever is open on top closes.
    Cancel,
    /// F2: the entry under the cursor is renamed.
    Rename,
    /// Delete: the selection goes to the trash.
    Trash,
    /// Shift+Delete: the selection is deleted for good, after a question.
    Delete,
    /// The "Open with" dialog for the file under the cursor.
    OpenWith,
    /// The sidebar entry at this place, counting from 0.
    Place(usize),
}

/// The value of the decimal digits `s`.
pub open spec fn digits_value(s: Seq<char>) -> nat
    decreases s.len(),
{
    if s.len() == 0 {
        0
    } else {
        digits_value(s.drop_last()) * 10 + ((s.last() as u32) - 48) as nat
    }
}

/// Whether every character of `s` is a decimal digit.
pub open spec fn all_digits(s: Seq<char>) -> bool {
    forall|i: int| 0 <= i < s.len() ==> '0' <= #[trigger] s[i] <= '9'
}

/// The number `s` writes, as an unsigned whole number is read from text: an optional `+` and at
/// least one decimal digit, no larger than the largest `usize`.
pub open spec fn number_of(s: Seq<char>) -> Option<nat> {
    let digits = if s.len() > 0 && s[0] == '+' {
        s.drop_first()
    } else {
        s
    };
    if digits.len() > 0 && all_digits(digits) && digits_value(digits) <= usize::MAX {
        Some(digits_value(digits))
    } else {
        None
    }
}

proof fn lemma_digits_grow(s: Seq<char>, k: int)
    requires
        0 <= k <= s.len(),
        all_digits(s),
    ensures
        digits_value(s.take(k)) <= digits_value(s),
    decreases s.len() - k,
{
    if k < s.len() {
        lemma_digits_grow(s, k + 1);
        assert(s.take(k + 1).drop_last() =~= s.take(k));
    } else {
        assert(s.take(k) =~= s);
    }
}

/// The number `s` writes, read as an unsigned whole number is read from text.
pub fn number(s: &str) -> (r: Option<usize>)
    ensures
        r matches Some(n) ==> number_of(s@) == Some(n as nat),
        r is None ==> number_of(s@) is None,
{
    let c = chars_of(s);
    let start: usize = if c.len() > 0 && c[0] == '+' {
        1
    } else {
        0
    };
    let ghost digits = if s@.len() > 0 && s@[0] == '+' {
        s@.drop_first()
    } else {
        s@
    };
    assert(digits =~= c@.subrange(start as int, c@.len() as int));
    if start == c.len() {
        return None;
    }
    let mut value: usize = 0;
    let mut k = start;
    assert(digits.take(0) =~= Seq::<char>::empty());
    while k < c.len()
        invariant
            c@ == s@,
            start <= k <= c@.len(),
            digits == c@.subrange(start as int, c@.len() as int),
            digits == (if s@.len() > 0 && s@[0] == '+' {
                s@.drop_first()
            } else {
                s@
            }),
            forall|i: int| 0 <= i < k - start ==> '0' <= #[trigger] digits[i] <= '9',
            value == digits_value(digits.take(k - start)),
        decreases c@.len() - k,
    {
        let d = c[k];
        if !('0' <= d && d <= '9') {
            assert(!all_digits(digits)) by {
                assert(digits[k - start] == d);
            }
            return None;
        }
        assert(digits.take(k + 1 - start).drop_last() =~= digits.take(k - start));
        assert(digits.take(k + 1 - start).last() == d);
        let digit = (d as u32 - 48) as usize;
        let next = match value.checked_mul(10) {
            Some(v) => v.checked_add(digit),
            None => None,
        };
        match next {
            Some(v) => {
                value = v;
            },
            None => {
                proof {
                    assert(digits_value(digits.take(k + 1 - start)) == value * 10 + digit);
                    assert(value * 10 + digit > usize::MAX);
                    if all_digits(digits) {
                        lemma_digits_grow(digits, k + 1 - start);
                    }
                }
                return None;
            },
        }
        k += 1;
    }
    assert(digits.take(k - start) =~= digits);
    Some(value)
}

/// What the key or button named `name` asks for; the settings page, having no folder on screen for
/// the folder's keys to act on, takes only its own. `place-N` is the sidebar's entry `N`, counting
/// from 1.
pub fn action_named(name: &str, settings_open: bool) -> (r: Option<Action>)
    ensures
        settings_open ==> r == if name@ == "settings"@ || name@ == "cancel"@ {
            Some(Action::CloseSettings)
        } else if name@ == "help"@ {
            Some(Action::Help)
        } else {
            None
        },
        !settings_open ==> r == if name@ == "back"@ {
            Some(Action::Back)
        } else if name@ == "forward"@ {
            Some(Action::Forward)
        } else if name@ == "up"@ {
            Some(Action::Up)
        } else if name@ == "location"@ {
            Some(Action::Location)
        } else if name@ == "places"@ {
            Some(Action::Places)
        } else if name@ == "hidden"@ {
            Some(Action::Hidden)
        } else if name@ == "view-list"@ {
            Some(Action::ViewList)
        } else if name@ == "view-grid"@ {
            Some(Action::ViewGrid)
        } else if name@ == "view-tree"@ {
            Some(Action::ViewTree)
        } else if name@ == "settings"@ {
            Some(Action::OpenSettings)
        } else if name@ == "help"@ {
            Some(Action::Help)
        } else if name@ == "cancel"@ {
            Some(Action::Cancel)
        } else if name@ == "rename"@ {
            Some(Action::Rename)
        } else if name@ == "trash"@ {
            Some(Action::Trash)
        } else if name@ == "delete"@ {
            Some(Action::Delete)
        } else if name@ == "open-with"@ {
            Some(Action::OpenWith)
        } else if name@.len() >= 6 && name@.subrange(0, 6) == "place-"@ {
            match number_of(name@.subrange(6, name@.len() as int)) {
                Some(n) if n >= 1 => Some(Action::Place((n - 1) as usize)),
                _ => None,
            }
        } else {
            None
        },
{
    let given = name.to_owned();
    let is = |word: &str| -> (b: bool)
        ensures
            b == (name@ == word@),
        { given.eq(&word.to_owned()) };
    if settings_open {
        return if is("settings") || is("cancel") {
            Some(Action::CloseSettings)
        } else if is("help") {
            Some(Action::Help)
        } else {
            None
        };
    }
    if is("back") {
        Some(Action::Back)
    } else if is("forward") {
        Some(Action::Forward)
    } else if is("up") {
        Some(Action::Up)
    } else if is("location") {
        Some(Action::Location)
    } else if is("places") {
        Some(Action::Places)
    } else if is("hidden") {
        Some(Action::Hidden)
    } else if is("view-list") {
        Some(Action::ViewList)
    } else if is("view-grid") {
        Some(Action::ViewGrid)
    } else if is("view-tree") {
        Some(Action::ViewTree)
    } else if is("settings") {
        Some(Action::OpenSettings)
    } else if is("help") {
        Some(Action::Help)
    } else if is("cancel") {
        Some(Action::Cancel)
    } else if is("rename") {
        Some(Action::Rename)
    } else if is("trash") {
        Some(Action::Trash)
    } else if is("delete") {
        Some(Action::Delete)
    } else if is("open-with") {
        Some(Action::OpenWith)
    } else {
        let n = name.unicode_len();
        if n >= 6 && name.substring_char(0, 6).to_owned().eq(&"place-".to_owned()) {
            match number(name.substring_char(6, n)) {
                Some(k) if k >= 1 => Some(Action::Place(k - 1)),
                _ => None,
            }
        } else {
            None
        }
    }
}

/// What an entry of the sidebar is: the places first, then the favourites.
#[derive(Debug, Clone, Copy, PartialEq, Eq, Structural)]
pub enum Entry {
    /// The place at this place among the places.
    Place(usize),
    /// The favourite at this place among the favourites.
    Favourite(usize),
    /// No entry.
    Nothing,
}

/// The entry `index` of a sidebar of `places` places and then `favourites` favourites.
pub fn sidebar_entry(index: usize, places: usize, favourites: usize) -> (r: Entry)
    ensures
        r == if index < places {
            Entry::Place(index)
        } else if index - places < favourites {
            Entry::Favourite((index - places) as usize)
        } else {
            Entry::Nothing
        },
{
    if index < places {
        Entry::Place(index)
    } else if index - places < favourites {
        Entry::Favourite(index - places)
    } else {
        Entry::Nothing
    }
}

/// What qexp adds of its own to a row's menu, beside the framework's items.
#[derive(Debug, Clone, Copy, PartialEq, Eq, Structural)]
pub enum RowItem {
    /// "Open with…".
    OpenWith,
    /// "Extract here", beside the archive.
    ExtractHere,
    /// "Extract to…", into a folder the person picks.
    ExtractTo,
    /// "Set as wallpaper", with qdesk.
    Wallpaper,
}

/// The items qexp adds to the menu of the row `key`, when the menu acts on `targets` entries:
/// nothing on the folder's own row, on a folder, or on several entries; on a file "Open with…",
/// the two extracting items on an archive, and "Set as wallpaper" on a picture when qdesk was
/// found (`qdesk`).
pub open spec fn row_items_of(key: Seq<char>, targets: nat, is_folder: bool, qdesk: bool) -> Seq<RowItem> {
    if targets > 1 || key.len() == 0 || is_folder {
        Seq::empty()
    } else {
        let name = name_in(key);
        let archive = if archive_format(vstd::utf8::encode_utf8(name)) is Some {
            seq![RowItem::ExtractHere, RowItem::ExtractTo]
        } else {
            Seq::empty()
        };
        let picture = if qdesk && is_picture_name(name) {
            seq![RowItem::Wallpaper]
        } else {
            Seq::empty()
        };
        seq![RowItem::OpenWith] + archive + picture
    }
}

/// The items qexp adds to the menu of the row `key`, which acts on `targets` entries; `is_folder`
/// says whether the row is a folder and `qdesk` whether qdesk was found.
pub fn row_items(key: &str, targets: usize, is_folder: bool, qdesk: bool) -> (r: Vec<RowItem>)
    ensures
        r@ == row_items_of(key@, targets as nat, is_folder, qdesk),
{
    let mut items: Vec<RowItem> = Vec::new();
    if targets > 1 || key.unicode_len() == 0 || is_folder {
        assert(items@ =~= row_items_of(key@, targets as nat, is_folder, qdesk));
        return items;
    }
    let name = name_of(key);
    items.push(RowItem::OpenWith);
    if format_of(name.as_str()).is_some() {
        items.push(RowItem::ExtractHere);
        items.push(RowItem::ExtractTo);
    }
    if qdesk && is_picture(name.as_str()) {
        items.push(RowItem::Wallpaper);
    }
    assert(items@ =~= row_items_of(key@, targets as nat, is_folder, qdesk));
    items
}

} // verus!
