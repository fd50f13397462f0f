//! The favourites on the screen: the person's own folders below the places, added from a folder's
//! menu, taken out and moved from their own menu or with alt+shift and the arrows, and gone to like
//! a place. The list on disk is [`crate::favourites`]'s.

use vstd::prelude::*;

use crate::favourites::{is_list, is_listed, keepable, listed, storable};
use crate::path::{is_same_path, same_path};
use crate::text::views;

verus! {

/// Which way a favourite moves in the list.
#[derive(Debug, Clone, Copy, PartialEq, Eq, Structural)]
pub enum Towards {
    /// One place nearer the top.
    Up,
    /// One place nearer the bottom.
    Down,
}

/// Where the favourite at `from` of a list of `len` goes when moved `towards`; `None` at the end
/// it cannot move past.
pub open spec fn move_target(len: nat, from: nat, towards: Towards) -> Option<nat> {
    match towards {
        Towards::Up => if from > 0 {
            Some((from - 1) as nat)
        } else {
            None
        },
        Towards::Down => if from + 1 < len {
            Some(from + 1)
        } else {
            None
        },
    }
}

/// `list` with the entries at `i` and `j` changed places.
pub open spec fn swapped<A>(list: Seq<A>, i: int, j: int) -> Seq<A> {
    list.update(i, list[j]).update(j, list[i])
}

/// Where the favourite at `from` of a list of `len` goes when moved `towards`.
pub fn target(len: usize, from: usize, towards: Towards) -> (r: Option<usize>)
    ensures
        r matches Some(t) ==> move_target(len as nat, from as nat, towards) == Some(t as nat),
        r is None ==> move_target(len as nat, from as nat, towards) is None,
{
    match towards {
        Towards::Up => if from > 0 {
            Some(from - 1)
        } else {
            None
        },
        Towards::Down => if from < len && from + 1 < len {
            Some(from + 1)
        } else {
            None
        },
    }
}

/// Moves the favourite at `from` one place `towards`, and says where it went; at the end it cannot
/// move past, nothing changes.
pub fn move_favourite(paths: &mut Vec<Vec<u8>>, from: usize, towards: Towards) -> (r: Option<usize>)
    requires
        from < old(paths)@.len(),
    ensures
        r matches Some(t) ==> move_target(old(paths)@.len(), from as nat, towards) == Some(t as nat)
            && final(paths)@ == swapped(old(paths)@, from as int, t as int),
        r is None ==> move_target(old(paths)@.len(), from as nat, towards) is None && final(paths)@ == old(
            paths,
        )@,
{
    let to = match target(paths.len(), from, towards) {
        Some(t) => t,
        None => return None,
    };
    let ghost before = paths@;
    let moved = paths.remove(from);
    paths.insert(to, moved);
    assert(paths@ =~= swapped(before, from as int, to as int));
    Some(to)
}

/// Moving a favourite one way and then back the other leaves the list as it was.
pub proof fn moving_there_and_back_restores<A>(list: Seq<A>, from: nat, towards: Towards)
    requires
        from < list.len(),
        move_target(list.len(), from, towards) is Some,
    ensures
        ({
            let to = move_target(list.len(), from, towards)->0;
            let back = match towards {
                Towards::Up => Towards::Down,
                Towards::Down => Towards::Up,
            };
            &&& move_target(list.len(), to, back) == Some(from)
            &&& swapped(swapped(list, from as int, to as int), to as int, from as int) == list
        }),
{
    let to = move_target(list.len(), from, towards)->0;
    assert(swapped(swapped(list, from as int, to as int), to as int, from as int) =~= list);
}

/// Moving a favourite keeps the list one the file can hold.
pub proof fn moving_keeps_a_list(list: Seq<Seq<u8>>, i: int, j: int)
    requires
        is_list(list),
        0 <= i < list.len(),
        0 <= j < list.len(),
    ensures
        is_list(swapped(list, i, j)),
{
    let s = swapped(list, i, j);
    let at = |k: int| if k == i {
        j
    } else if k == j {
        i
    } else {
        k
    };
    assert forall|k: int| 0 <= k < s.len() implies s[k] == list[at(k)] by {}
    assert forall|a: int, b: int| 0 <= a < b < s.len() implies !same_path(#[trigger] s[a], #[trigger] s[b]) by {
        assert(s[a] == list[at(a)] && s[b] == list[at(b)]);
        if at(a) < at(b) {
        } else {
            assert(at(b) < at(a));
        }
    }
}

/// `paths` with `path` added at the end, when it can be kept and is not there yet.
pub open spec fn with_added(paths: Seq<Seq<u8>>, path: Seq<u8>) -> Seq<Seq<u8>> {
    if keepable(path) && !listed(paths, path) {
        paths.push(path)
    } else {
        paths
    }
}

/// Adds the folder at `path` at the end of the list, unless it is there already or cannot be kept
/// on a line; true when it was added.
pub fn add_favourite(paths: &mut Vec<Vec<u8>>, path: Vec<u8>) -> (r: bool)
    ensures
        views(final(paths)@) == with_added(views(old(paths)@), path@),
        r == (views(final(paths)@) != views(old(paths)@)),
{
    if !storable(&path) || is_listed(paths, &path) {
        return false;
    }
    let ghost before = views(paths@);
    paths.push(path);
    assert(views(paths@) =~= before.push(path@));
    assert(views(paths@).len() != before.len());
    true
}

/// Adding a favourite keeps the list one the file can hold.
pub proof fn adding_keeps_a_list(paths: Seq<Seq<u8>>, path: Seq<u8>)
    requires
        is_list(paths),
    ensures
        is_list(with_added(paths, path)),
{
    let after = with_added(paths, path);
    if after != paths {
        assert forall|a: int, b: int| 0 <= a < b < after.len() implies !same_path(#[trigger] after[a], #[trigger] after[b]) by {
            if b == paths.len() {
                assert(after[a] == paths[a]);
                if same_path(after[a], after[b]) {
                    assert(0 <= a < paths.len() && same_path(paths[a], path));
                }
            } else {
                assert(after[a] == paths[a] && after[b] == paths[b]);
            }
        }
        assert forall|k: int| 0 <= k < after.len() implies keepable(#[trigger] after[k]) by {
            if k < paths.len() {
                assert(after[k] == paths[k]);
            }
        }
    }
}

/// `paths` without the favourite at `path`; the folder itself stays where it is.
pub open spec fn without(paths: Seq<Seq<u8>>, path: Seq<u8>) -> Seq<Seq<u8>> {
    paths.filter(|p: Seq<u8>| !same_path(p, path))
}

/// Takes the favourite at `path` out of the list; true when it was there.
pub fn remove_favourite(paths: &mut Vec<Vec<u8>>, path: &[u8]) -> (r: bool)
    ensures
        views(final(paths)@) == without(views(old(paths)@), path@),
        r == (views(final(paths)@).len() != views(old(paths)@).len()),
{
    let ghost all = views(paths@);
    let mut kept: Vec<Vec<u8>> = Vec::new();
    let old_len = paths.len();
    let mut taken: Vec<Vec<u8>> = Vec::new();
    std::mem::swap(&mut taken, paths);
    assert(views(taken@) == all);
    let mut k: usize = 0;
    assert(all.take(0).filter(|p: Seq<u8>| !same_path(p, path@)) =~= Seq::<Seq<u8>>::empty()) by {
        reveal_with_fuel(Seq::<_>::filter, 1);
    }
    let mut rest: Vec<Vec<u8>> = Vec::new();
    while taken.len() > 0
        invariant
            k + taken@.len() == all.len(),
            all.len() == old_len,
            views(taken@) == all.subrange(k as int, all.len() as int),
            views(kept@) == all.take(k as int).filter(|p: Seq<u8>| !same_path(p, path@)),
        decreases taken@.len(),
    {
        let ghost before = views(kept@);
        let ghost tail = views(taken@);
        let ghost old_taken = taken@;
        assert(tail[0] == old_taken[0]@);
        assert(tail[0] == all[k as int]);
        let first = taken.remove(0);
        assert(taken@ == old_taken.remove(0));
        assert(first@ == all[k as int]);
        assert(views(taken@) =~= all.subrange(k + 1, all.len() as int)) by {
            assert forall|i: int| 0 <= i < taken@.len() implies views(taken@)[i] == all[k + 1 + i] by {
                assert(taken@[i] == old_taken[i + 1]);
                assert(tail[i + 1] == old_taken[i + 1]@);
            }
        }
        proof {
            assert(all.take(k + 1).drop_last() =~= all.take(k as int));
            reveal_with_fuel(Seq::<_>::filter, 1);
        }
        if !is_same_path(&first, path) {
            kept.push(first);
            assert(views(kept@) =~= before.push(all[k as int]));
        }
        k += 1;
    }
    assert(all.take(k as int) =~= all);
    let removed = kept.len() != old_len;
    *paths = kept;
    removed
}

/// Taking a favourite out keeps the list one the file can hold.
pub proof fn removing_keeps_a_list(paths: Seq<Seq<u8>>, path: Seq<u8>)
    requires
        is_list(paths),
    ensures
        is_list(without(paths, path)),
    decreases paths.len(),
{
    reveal_with_fuel(Seq::<_>::filter, 1);
    if paths.len() > 0 {
        let rest = paths.drop_last();
        assert(is_list(rest)) by {
            assert(forall|i: int| 0 <= i < rest.len() ==> rest[i] == paths[i]);
        }
        removing_keeps_a_list(rest, path);
        let before = without(rest, path);
        let after = without(paths, path);
        let last = paths.last();
        if after != before {
            assert(after == before.push(last));
            let keep = |p: Seq<u8>| !same_path(p, path);
            assert forall|a: int, b: int| 0 <= a < b < after.len() implies !same_path(#[trigger] after[a], #[trigger] after[b]) by {
                if b == after.len() - 1 {
                    assert(after[a] == before[a]);
                    assert(before.contains(before[a]));
                    rest.lemma_filter_contains_rev(keep, before[a]);
                    assert(rest.contains(before[a]));
                    let i = choose|i: int| 0 <= i < rest.len() && rest[i] == before[a];
                    assert(paths[i] == rest[i]);
                    assert(!same_path(paths[i], paths[paths.len() - 1]));
                } else {
                    assert(after[a] == before[a] && after[b] == before[b]);
                }
            }
            assert forall|k: int| 0 <= k < after.len() implies keepable(#[trigger] after[k]) by {
                if k < before.len() {
                    assert(after[k] == before[k]);
                    assert(before.contains(before[k]));
                    rest.lemma_filter_contains_rev(keep, before[k]);
                    assert(rest.contains(before[k]));
                    let i = choose|i: int| 0 <= i < rest.len() && rest[i] == before[k];
                    assert(paths[i] == rest[i]);
                } else {
                    assert(after[k] == paths[paths.len() - 1]);
                }
            }
        }
    }
}

} // verus!
