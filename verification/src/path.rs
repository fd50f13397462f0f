//! Paths as the bytes Unix keeps them in: which are absolute, joining one onto another, and
//! telling two apart the way the system does, by their components rather than their spelling.

use vstd::prelude::*;

use crate::text::{push_range, same_bytes, split, split_bytes, views};

verus! {

/// Whether `p` starts at the root.
pub open spec fn is_absolute(p: Seq<u8>) -> bool {
    p.len() > 0 && p[0] == 47u8
}

/// `rel` joined onto `base`: a separator between the two unless `base` is empty or ends in one;
/// an absolute `rel` stands on its own.
pub open spec fn join(base: Seq<u8>, rel: Seq<u8>) -> Seq<u8> {
    if is_absolute(rel) {
        rel
    } else if base.len() > 0 && base.last() != 47u8 {
        base + seq![47u8] + rel
    } else {
        base + rel
    }
}

/// Whether a piece between separators names something: not empty and not `.`.
pub open spec fn is_part(piece: Seq<u8>) -> bool {
    piece.len() > 0 && piece != seq![46u8]
}

/// The names of `p` between its separators, empty ones and `.` left out.
pub open spec fn parts(p: Seq<u8>) -> Seq<Seq<u8>> {
    split(p, 47u8).filter(|piece: Seq<u8>| is_part(piece))
}

/// Whether a relative `p` starts with a `.` of its own, which counts as a component.
pub open spec fn starts_here(p: Seq<u8>) -> bool {
    !is_absolute(p) && p.len() > 0 && p[0] == 46u8 && (p.len() == 1 || p[1] == 47u8)
}

/// Whether `a` and `b` are the same path: both absolute or both not, both starting at `.` or
/// not, with the same names in the same order.
pub open spec fn same_path(a: Seq<u8>, b: Seq<u8>) -> bool {
    is_absolute(a) == is_absolute(b) && starts_here(a) == starts_here(b) && parts(a) == parts(b)
}

/// `rel` joined onto `base`.
pub fn join_path(base: &[u8], rel: &[u8]) -> (r: Vec<u8>)
    ensures
        r@ == join(base@, rel@),
{
    let mut out: Vec<u8> = Vec::new();
    if rel.len() > 0 && rel[0] == 47u8 {
        push_range(&mut out, rel, 0, rel.len());
        assert(rel@.subrange(0, rel@.len() as int) =~= rel@);
        return out;
    }
    push_range(&mut out, base, 0, base.len());
    if base.len() > 0 && base[base.len() - 1] != 47u8 {
        out.push(47u8);
    }
    push_range(&mut out, rel, 0, rel.len());
    assert(base@.subrange(0, base@.len() as int) =~= base@);
    assert(rel@.subrange(0, rel@.len() as int) =~= rel@);
    assert(out@ =~= join(base@, rel@));
    out
}

/// The names of `p` between its separators.
pub fn path_parts(p: &[u8]) -> (r: Vec<Vec<u8>>)
    ensures
        views(r@) == parts(p@),
{
    let pieces = split_bytes(p, 47u8);
    let ghost all = split(p@, 47u8);
    let mut out: Vec<Vec<u8>> = Vec::new();
    let mut k: usize = 0;
    assert(all.take(0) =~= Seq::<Seq<u8>>::empty());
    assert(all.take(0).filter(|piece: Seq<u8>| is_part(piece)) =~= Seq::<Seq<u8>>::empty()) by {
        reveal_with_fuel(Seq::<_>::filter, 1);
    }
    while k < pieces.len()
        invariant
            views(pieces@) == all,
            k <= pieces@.len(),
            views(out@) == all.take(k as int).filter(|piece: Seq<u8>| is_part(piece)),
        decreases pieces@.len() - k,
    {
        let piece = &pieces[k];
        assert(piece@ == all[k as int]);
        proof {
            assert(all.take(k + 1).drop_last() =~= all.take(k as int));
            reveal_with_fuel(Seq::<_>::filter, 1);
        }
        let is_dot = piece.len() == 1 && piece[0] == 46u8;
        assert(is_dot == (piece@ == seq![46u8])) by {
            if piece@.len() == 1 && piece@ != seq![46u8] {
                assert(piece@[0] != 46u8) by {
                    if piece@[0] == 46u8 {
                        assert(piece@ =~= seq![46u8]);
                    }
                }
            }
        }
        if piece.len() > 0 && !is_dot {
            let ghost before = views(out@);
            let mut copy: Vec<u8> = Vec::new();
            push_range(&mut copy, piece, 0, piece.len());
            assert(piece@.subrange(0, piece@.len() as int) =~= piece@);
            out.push(copy);
            assert(views(out@) =~= before.push(all[k as int]));
        }
        k += 1;
    }
    assert(all.take(k as int) =~= all);
    out
}

/// Whether the pieces `a` and `b` hold the same bytes in the same order.
pub fn same_parts(a: &Vec<Vec<u8>>, b: &Vec<Vec<u8>>) -> (r: bool)
    ensures
        r == (views(a@) == views(b@)),
{
    if a.len() != b.len() {
        assert(views(a@).len() != views(b@).len());
        return false;
    }
    let mut k: usize = 0;
    while k < a.len()
        invariant
            a@.len() == b@.len(),
            k <= a@.len(),
            forall|m: int| 0 <= m < k ==> a@[m]@ == b@[m]@,
        decreases a@.len() - k,
    {
        if !same_bytes(&a[k], &b[k]) {
            assert(views(a@)[k as int] != views(b@)[k as int]);
            return false;
        }
        k += 1;
    }
    assert(views(a@) =~= views(b@));
    true
}

fn starts_here_exec(p: &[u8]) -> (r: bool)
    ensures
        r == starts_here(p@),
{
    !(p.len() > 0 && p[0] == 47u8) && p.len() > 0 && p[0] == 46u8 && (p.len() == 1 || p[1] == 47u8)
}

/// Whether `a` and `b` are the same path, component by component: `/a//b/` is `/a/b`.
pub fn is_same_path(a: &[u8], b: &[u8]) -> (r: bool)
    ensures
        r == same_path(a@, b@),
{
    let absolute_a = a.len() > 0 && a[0] == 47u8;
    let absolute_b = b.len() > 0 && b[0] == 47u8;
    if absolute_a != absolute_b || starts_here_exec(a) != starts_here_exec(b) {
        return false;
    }
    same_parts(&path_parts(a), &path_parts(b))
}

/// The names `names` with `/` between them.
pub open spec fn joined(names: Seq<Seq<u8>>) -> Seq<u8>
    decreases names.len(),
{
    if names.len() == 0 {
        Seq::empty()
    } else if names.len() == 1 {
        names[0]
    } else {
        joined(names.drop_last()) + seq![47u8] + names.last()
    }
}

/// Whether the names of `base` are the first names of `path`.
pub open spec fn is_prefix_of(base: Seq<Seq<u8>>, path: Seq<Seq<u8>>) -> bool {
    base.len() <= path.len() && path.subrange(0, base.len() as int) == base
}

/// The components of `p` as the system reads them: the root (`/`) for an absolute path, the
/// current folder (`.`) for a relative one that starts with `./` or is `.`, then its names.
pub open spec fn components(p: Seq<u8>) -> Seq<Seq<u8>> {
    if is_absolute(p) {
        seq![seq![47u8]] + parts(p)
    } else if starts_here(p) {
        seq![seq![46u8]] + parts(p)
    } else {
        parts(p)
    }
}

/// What of `path` lies below `root`: its components after those of `root`, with `/` between them,
/// as the key a file manager rooted at `root` knows it by (empty for `root` itself); `None` when the
/// components of `root` are not the first of `path`'s.
pub open spec fn below(path: Seq<u8>, root: Seq<u8>) -> Option<Seq<u8>> {
    if is_prefix_of(components(root), components(path)) {
        Some(joined(components(path).subrange(components(root).len() as int, components(path).len() as int)))
    } else {
        None
    }
}

/// The components of `p`.
fn components_of(p: &[u8]) -> (r: Vec<Vec<u8>>)
    ensures
        views(r@) == components(p@),
{
    let names = path_parts(p);
    let mut out: Vec<Vec<u8>> = Vec::new();
    if p.len() > 0 && p[0] == 47u8 {
        let mark: Vec<u8> = vec![47u8];
        assert(mark@ =~= seq![47u8]);
        out.push(mark);
    } else if starts_here_exec(p) {
        let mark: Vec<u8> = vec![46u8];
        assert(mark@ =~= seq![46u8]);
        out.push(mark);
    }
    let ghost lead = views(out@);
    assert(lead =~= (if is_absolute(p@) {
        seq![seq![47u8]]
    } else if starts_here(p@) {
        seq![seq![46u8]]
    } else {
        Seq::<Seq<u8>>::empty()
    }));
    assert(parts(p@).take(0) =~= Seq::<Seq<u8>>::empty());
    let mut k: usize = 0;
    while k < names.len()
        invariant
            views(names@) == parts(p@),
            k <= names@.len(),
            lead == (if is_absolute(p@) {
                seq![seq![47u8]]
            } else if starts_here(p@) {
                seq![seq![46u8]]
            } else {
                Seq::<Seq<u8>>::empty()
            }),
            views(out@) == lead + parts(p@).take(k as int),
        decreases names@.len() - k,
    {
        let mut copy: Vec<u8> = Vec::new();
        push_range(&mut copy, &names[k], 0, names[k].len());
        assert(names@[k as int]@.subrange(0, names@[k as int]@.len() as int) =~= names@[k as int]@);
        let ghost before = views(out@);
        out.push(copy);
        assert(views(out@) =~= before.push(parts(p@)[k as int]));
        assert(parts(p@).take(k + 1) =~= parts(p@).take(k as int).push(parts(p@)[k as int]));
        k += 1;
    }
    assert(parts(p@).take(k as int) =~= parts(p@));
    assert(views(out@) =~= components(p@));
    out
}

/// What of `path` lies below `root`, its components after those of `root` with `/` between them,
/// or `None` for a path outside it.
pub fn strip_root(path: &[u8], root: &[u8]) -> (r: Option<Vec<u8>>)
    ensures
        r matches Some(k) ==> below(path@, root@) == Some(k@),
        r is None ==> below(path@, root@) is None,
{
    let p = components_of(path);
    let b = components_of(root);
    if b.len() > p.len() {
        return None;
    }
    let mut k: usize = 0;
    while k < b.len()
        invariant
            views(p@) == components(path@),
            views(b@) == components(root@),
            b@.len() <= p@.len(),
            k <= b@.len(),
            forall|i: int| 0 <= i < k ==> p@[i]@ == b@[i]@,
        decreases b@.len() - k,
    {
        if !same_bytes(&p[k], &b[k]) {
            assert(views(p@).subrange(0, b@.len() as int)[k as int] != views(b@)[k as int]);
            assert(!is_prefix_of(components(root@), components(path@)));
            return None;
        }
        k += 1;
    }
    assert(views(p@).subrange(0, b@.len() as int) =~= views(b@));
    let ghost rest = views(p@).subrange(b@.len() as int, p@.len() as int);
    let mut out: Vec<u8> = Vec::new();
    let mut i = b.len();
    assert(rest.take(0) =~= Seq::<Seq<u8>>::empty());
    while i < p.len()
        invariant
            b@.len() <= i <= p@.len(),
            rest == views(p@).subrange(b@.len() as int, p@.len() as int),
            out@ == joined(rest.take(i - b@.len())),
        decreases p@.len() - i,
    {
        let ghost before = rest.take(i - b@.len());
        assert(rest.take(i + 1 - b@.len()).drop_last() =~= before);
        assert(rest.take(i + 1 - b@.len()).last() == p@[i as int]@);
        if i > b.len() {
            out.push(47u8);
        }
        let piece = &p[i];
        push_range(&mut out, piece, 0, piece.len());
        proof {
            assert(piece@.subrange(0, piece@.len() as int) =~= piece@);
            assert(out@ =~= joined(rest.take(i + 1 - b@.len())));
        }
        i += 1;
    }
    assert(rest.take(i - b@.len()) =~= rest);
    Some(out)
}

/// The last name of `path`, unless the path ends in `..` or has no name at all, as the root.
pub open spec fn file_name_of(path: Seq<u8>) -> Option<Seq<u8>> {
    let names = parts(path);
    if names.len() == 0 || names.last() == seq![46u8, 46u8] {
        None
    } else {
        Some(names.last())
    }
}

/// The last name of `path`, unless it ends in `..` or has none.
pub fn file_name(path: &[u8]) -> (r: Option<Vec<u8>>)
    ensures
        r matches Some(n) ==> file_name_of(path@) == Some(n@),
        r is None ==> file_name_of(path@) is None,
{
    let mut names = path_parts(path);
    let ghost all = views(names@);
    match names.pop() {
        Some(last) => {
            assert(last@ == all.last());
            let up: Vec<u8> = vec![46u8, 46u8];
            assert(up@ =~= seq![46u8, 46u8]);
            if same_bytes(&last, &up) {
                None
            } else {
                Some(last)
            }
        },
        None => None,
    }
}

} // verus!
