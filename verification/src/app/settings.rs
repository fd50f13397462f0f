//! qexp's settings: the view, hidden entries and coloured icons, kept in `explorer.conf` by the
//! names given here.

use vstd::prelude::*;

verus! {

/// The key of the view: `list` or `grid`. A `tree` left by an older qexp is read as the list and
/// stays in the file until the person picks a view.
pub const VIEW: &'static str = "view";

/// The key of whether hidden entries are shown.
pub const HIDDEN: &'static str = "show-hidden";

/// The key of whether icons take the colour of their kind.
pub const COLOUR_ICONS: &'static str = "colour-icons";

/// The views the folder can be drawn in.
#[derive(Debug, Clone, Copy, PartialEq, Eq, Structural)]
pub enum FolderView {
    /// One row an entry.
    List,
    /// Icons in a grid.
    Icons,
    /// The folders above and below as a tree, which the picker no longer offers.
    Tree,
}

/// The view a file calls `name`: `list` or `grid`.
pub open spec fn view_called(name: Seq<char>) -> Option<FolderView> {
    if name == "list"@ {
        Some(FolderView::List)
    } else if name == "grid"@ {
        Some(FolderView::Icons)
    } else {
        None
    }
}

/// The view a file calls `name`: `list` or `grid`; anything else names none.
pub fn view_named(name: &str) -> (r: Option<FolderView>)
    ensures
        r == view_called(name@),
{
    let list = "list".to_owned();
    let grid = "grid".to_owned();
    let given = name.to_owned();
    if given.eq(&list) {
        Some(FolderView::List)
    } else if given.eq(&grid) {
        Some(FolderView::Icons)
    } else {
        None
    }
}

/// The name the file keeps `view` under; a view the picker does not offer is kept as the list.
pub fn view_name(view: FolderView) -> (r: &'static str)
    ensures
        r@ == match view {
            FolderView::Icons => "grid"@,
            _ => "list"@,
        },
{
    match view {
        FolderView::Icons => "grid",
        _ => "list",
    }
}

/// The picker's place of `view`: the list first, then the grid; a view the picker does not offer
/// shows as the first.
pub fn view_index(view: FolderView) -> (r: usize)
    ensures
        r == match view {
            FolderView::Icons => 1usize,
            _ => 0usize,
        },
{
    match view {
        FolderView::Icons => 1,
        _ => 0,
    }
}

/// The view at the picker's place `index`.
pub fn view_at(index: usize) -> (r: FolderView)
    ensures
        r == if index == 1 {
            FolderView::Icons
        } else {
            FolderView::List
        },
{
    if index == 1 {
        FolderView::Icons
    } else {
        FolderView::List
    }
}

/// What the file keeps for a switch: nothing while it is `default`, so a file of defaults never
/// pins them and a later change of default reaches the person.
pub fn kept_switch(value: bool, default: bool) -> (r: Option<bool>)
    ensures
        r == if value == default {
            None::<bool>
        } else {
            Some(value)
        },
{
    if value == default {
        None
    } else {
        Some(value)
    }
}

/// What the file keeps for the view: nothing while it is the list, the default.
pub fn kept_view(view: FolderView) -> (r: Option<&'static str>)
    ensures
        r is None <==> view != FolderView::Icons,
        r matches Some(name) ==> name@ == "grid"@,
{
    match view {
        FolderView::Icons => Some("grid"),
        _ => None,
    }
}

} // verus!
