//! How the screen is laid out at a size, and the path a row's key stands for.

use vstd::prelude::*;
use vstd::string::StringSliceAdditionalSpecFns;

use crate::path::{join, join_path};
use crate::text::{push_range, split, split_bytes, views};

verus! {

/// Below this width the places leave the side for a layer opened with `ctrl+b`.
pub const SIDEBAR_BELOW: u16 = 90;

/// Below this width the screen keeps only the folder and a one-line path.
pub const BARE_BELOW: u16 = 48;

/// Below this width nothing useful fits.
pub const SMALLEST_WIDTH: u16 = 20;

/// Below this height nothing useful fits.
pub const SMALLEST_HEIGHT: u16 = 6;

/// How the screen is laid out.
#[derive(Debug, Clone, Copy, PartialEq, Eq, Structural)]
pub enum Layout {
    /// Nothing useful fits: a note says the screen is too small.
    TooSmall,
    /// Only the folder and a one-line path.
    Bare,
    /// The top strip, the folder and the keys; the places open over the folder on demand.
    Narrow,
    /// The top strip, the places on the left, the folder and the keys.
    Wide,
}

/// How the screen is laid out at `width` by `height` cells.
pub open spec fn layout_at(width: u16, height: u16) -> Layout {
    if width < SMALLEST_WIDTH || height < SMALLEST_HEIGHT {
        Layout::TooSmall
    } else if width < BARE_BELOW {
        Layout::Bare
    } else if width < SIDEBAR_BELOW {
        Layout::Narrow
    } else {
        Layout::Wide
    }
}

/// How the screen is laid out at `width` by `height` cells.
pub fn layout(width: u16, height: u16) -> (r: Layout)
    ensures
        r == layout_at(width, height),
{
    if width < SMALLEST_WIDTH || height < SMALLEST_HEIGHT {
        Layout::TooSmall
    } else if width < BARE_BELOW {
        Layout::Bare
    } else if width < SIDEBAR_BELOW {
        Layout::Narrow
    } else {
        Layout::Wide
    }
}

/// `base` with each name of `names` that is not empty joined on in turn.
pub open spec fn joined_names(base: Seq<u8>, names: Seq<Seq<u8>>) -> Seq<u8>
    decreases names.len(),
{
    if names.len() == 0 {
        base
    } else {
        let before = joined_names(base, names.drop_last());
        if names.last().len() == 0 {
            before
        } else {
            join(before, names.last())
        }
    }
}

/// The path the row `key` stands for under the folder `root`: each name of the key joined on.
pub fn path_of_key(root: &[u8], key: &str) -> (r: Vec<u8>)
    ensures
        r@ == joined_names(root@, split(key.spec_bytes(), 47u8)),
{
    let pieces = split_bytes(key.as_bytes(), 47u8);
    let ghost all = split(key.spec_bytes(), 47u8);
    let mut path: Vec<u8> = Vec::new();
    push_range(&mut path, root, 0, root.len());
    assert(root@.subrange(0, root@.len() as int) =~= root@);
    let mut k: usize = 0;
    assert(all.take(0) =~= Seq::<Seq<u8>>::empty());
    while k < pieces.len()
        invariant
            views(pieces@) == all,
            k <= all.len(),
            path@ == joined_names(root@, all.take(k as int)),
        decreases all.len() - k,
    {
        assert(pieces@[k as int]@ == all[k as int]);
        assert(all.take(k + 1).drop_last() =~= all.take(k as int));
        if pieces[k].len() > 0 {
            path = join_path(&path, &pieces[k]);
        }
        k += 1;
    }
    assert(all.take(k as int) =~= all);
    path
}

} // verus!
