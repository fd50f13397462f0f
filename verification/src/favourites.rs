//! The person's favourites: folders they added to the sidebar themselves, kept in qexp's data
//! folder one absolute path per line.
//!
//! The list is written whole after every change and read at start. A line that is not an
//! absolute path is skipped rather than refused: one broken line must not cost the rest. The first
//! time qexp starts, before its list has ever been written, the local folders of the desktop's GTK
//! bookmarks are taken in once.
//!
//! Paths are the bytes Unix keeps them in; reading and writing the files is the caller's.

use vstd::prelude::*;

use crate::path::{is_absolute, is_same_path, same_path};
use crate::text::{lemma_split_append_free, lemma_split_push_sep, push_range, split, split_bytes, views};

verus! {

/// The name of the list's file in qexp's data folder.
pub const FILE: &'static str = "favorites";

/// Whether `path` is already in `paths`, as the same path however it is spelled.
pub open spec fn listed(paths: Seq<Seq<u8>>, path: Seq<u8>) -> bool {
    exists|i: int| 0 <= i < paths.len() && same_path(#[trigger] paths[i], path)
}

/// `paths` with `path` added at the end when it is absolute and not in them yet.
pub open spec fn with_new(paths: Seq<Seq<u8>>, path: Seq<u8>) -> Seq<Seq<u8>> {
    if is_absolute(path) && !listed(paths, path) {
        paths.push(path)
    } else {
        paths
    }
}

/// A line without the carriage return a file written on another system may end it with.
pub open spec fn without_cr(line: Seq<u8>) -> Seq<u8> {
    if line.len() > 0 && line.last() == 13u8 {
        line.drop_last()
    } else {
        line
    }
}

/// Whether `line` holds a zero byte, which no path can.
pub open spec fn has_nul(line: Seq<u8>) -> bool {
    exists|i: int| 0 <= i < line.len() && line[i] == 0u8
}

/// The list the lines `lines` make: each line that is an absolute path, once, in order.
pub open spec fn list_of_lines(lines: Seq<Seq<u8>>) -> Seq<Seq<u8>>
    decreases lines.len(),
{
    if lines.len() == 0 {
        Seq::empty()
    } else {
        let before = list_of_lines(lines.drop_last());
        let line = lines.last();
        if has_nul(line) {
            before
        } else {
            with_new(before, without_cr(line))
        }
    }
}

/// The list a file holding `bytes` stands for.
pub open spec fn list_of(bytes: Seq<u8>) -> Seq<Seq<u8>> {
    list_of_lines(split(bytes, 10u8))
}

/// Whether `path` can be kept on a line of its own: an absolute path with no line break or zero
/// byte in it.
pub open spec fn keepable(path: Seq<u8>) -> bool {
    is_absolute(path) && forall|i: int| 0 <= i < path.len() ==> path[i] != 10u8 && path[i] != 13u8 && path[i]
        != 0u8
}

/// Whether `paths` is a list as the file keeps it: every path keepable, none twice.
pub open spec fn is_list(paths: Seq<Seq<u8>>) -> bool {
    &&& forall|i: int| 0 <= i < paths.len() ==> keepable(#[trigger] paths[i])
    &&& forall|i: int, j: int| 0 <= i < j < paths.len() ==> !same_path(#[trigger] paths[i], #[trigger] paths[j])
}

/// The bytes of the file that keeps `paths`: each path and a line break after it.
pub open spec fn file_bytes(paths: Seq<Seq<u8>>) -> Seq<u8>
    decreases paths.len(),
{
    if paths.len() == 0 {
        Seq::empty()
    } else {
        file_bytes(paths.drop_last()) + paths.last() + seq![10u8]
    }
}

/// Whether `path` is in `paths`.
pub fn is_listed(paths: &Vec<Vec<u8>>, path: &[u8]) -> (r: bool)
    ensures
        r == listed(views(paths@), path@),
{
    let mut k: usize = 0;
    while k < paths.len()
        invariant
            k <= paths@.len(),
            forall|i: int| 0 <= i < k ==> !same_path(#[trigger] views(paths@)[i], path@),
        decreases paths@.len() - k,
    {
        if is_same_path(&paths[k], path) {
            assert(same_path(views(paths@)[k as int], path@));
            return true;
        }
        k += 1;
    }
    false
}

/// Adds `path` to `paths` when it is absolute and not there yet; true when it was added.
pub fn push_new(paths: &mut Vec<Vec<u8>>, path: Vec<u8>) -> (r: bool)
    ensures
        views(final(paths)@) == with_new(views(old(paths)@), path@),
        r == (views(final(paths)@) != views(old(paths)@)),
{
    if !(path.len() > 0 && path[0] == 47u8) || is_listed(paths, &path) {
        return false;
    }
    let ghost before = views(paths@);
    paths.push(path);
    assert(views(paths@) =~= before.push(path@));
    assert(views(paths@).len() != before.len());
    true
}

/// Whether `path` can be kept on a line of its own: a name with a line break in it cannot.
pub fn storable(path: &[u8]) -> (r: bool)
    ensures
        r == keepable(path@),
{
    if !(path.len() > 0 && path[0] == 47u8) {
        return false;
    }
    let mut k: usize = 0;
    while k < path.len()
        invariant
            k <= path@.len(),
            forall|i: int| 0 <= i < k ==> path@[i] != 10u8 && path@[i] != 13u8 && path@[i] != 0u8,
        decreases path@.len() - k,
    {
        let b = path[k];
        if b == 10u8 || b == 13u8 || b == 0u8 {
            return false;
        }
        k += 1;
    }
    true
}

fn nul_in(line: &[u8]) -> (r: bool)
    ensures
        r == has_nul(line@),
{
    let mut k: usize = 0;
    while k < line.len()
        invariant
            k <= line@.len(),
            forall|i: int| 0 <= i < k ==> line@[i] != 0u8,
        decreases line@.len() - k,
    {
        if line[k] == 0u8 {
            return true;
        }
        k += 1;
    }
    false
}

/// The paths of the lines of `bytes` that are absolute paths, each once, in their order.
pub fn parse(bytes: &[u8]) -> (r: Vec<Vec<u8>>)
    ensures
        views(r@) == list_of(bytes@),
{
    let lines = split_bytes(bytes, 10u8);
    let ghost all = split(bytes@, 10u8);
    let mut paths: Vec<Vec<u8>> = Vec::new();
    let mut k: usize = 0;
    assert(all.take(0) =~= Seq::<Seq<u8>>::empty());
    while k < lines.len()
        invariant
            views(lines@) == all,
            k <= all.len(),
            views(paths@) == list_of_lines(all.take(k as int)),
        decreases all.len() - k,
    {
        let line = &lines[k];
        assert(line@ == all[k as int]);
        assert(all.take(k + 1).drop_last() =~= all.take(k as int));
        if !nul_in(line) {
            let end = if line.len() > 0 && line[line.len() - 1] == 13u8 {
                line.len() - 1
            } else {
                line.len()
            };
            let mut path: Vec<u8> = Vec::new();
            push_range(&mut path, line, 0, end);
            assert(path@ =~= without_cr(line@));
            push_new(&mut paths, path);
        }
        k += 1;
    }
    assert(all.take(k as int) =~= all);
    paths
}

/// The bytes of the file that keeps `paths`, one per line.
pub fn to_bytes(paths: &Vec<Vec<u8>>) -> (r: Vec<u8>)
    ensures
        r@ == file_bytes(views(paths@)),
{
    let mut out: Vec<u8> = Vec::new();
    let mut k: usize = 0;
    assert(views(paths@).take(0) =~= Seq::<Seq<u8>>::empty());
    while k < paths.len()
        invariant
            k <= paths@.len(),
            out@ == file_bytes(views(paths@).take(k as int)),
        decreases paths@.len() - k,
    {
        let path = &paths[k];
        push_range(&mut out, path, 0, path.len());
        out.push(10u8);
        proof {
            let taken = views(paths@).take(k + 1);
            assert(taken.drop_last() =~= views(paths@).take(k as int));
            assert(path@.subrange(0, path@.len() as int) =~= path@);
            assert(out@ =~= file_bytes(taken));
        }
        k += 1;
    }
    assert(views(paths@).take(k as int) =~= views(paths@));
    out
}

/// The file of a list whose paths hold no line break splits into the paths and an empty last line.
proof fn lemma_file_lines(paths: Seq<Seq<u8>>)
    requires
        forall|i: int| 0 <= i < paths.len() ==> keepable(#[trigger] paths[i]),
    ensures
        split(file_bytes(paths), 10u8) == paths.push(Seq::empty()),
    decreases paths.len(),
{
    if paths.len() == 0 {
        assert(split(Seq::<u8>::empty(), 10u8) =~= seq![Seq::<u8>::empty()]);
    } else {
        let rest = paths.drop_last();
        let p = paths.last();
        assert forall|i: int| 0 <= i < rest.len() implies keepable(#[trigger] rest[i]) by {
            assert(rest[i] == paths[i]);
        }
        lemma_file_lines(rest);
        assert(keepable(paths[paths.len() - 1]));
        lemma_split_append_free(file_bytes(rest), p, 10u8);
        let before = split(file_bytes(rest), 10u8);
        assert(before.update(before.len() - 1, before.last() + p) =~= rest.push(p));
        lemma_split_push_sep(file_bytes(rest) + p, 10u8);
        assert(file_bytes(paths) =~= (file_bytes(rest) + p).push(10u8));
        assert(rest.push(p) =~= paths);
    }
}

/// The lines of a list read back as the list.
proof fn lemma_list_lines(paths: Seq<Seq<u8>>)
    requires
        is_list(paths),
    ensures
        list_of_lines(paths) == paths,
    decreases paths.len(),
{
    if paths.len() > 0 {
        let rest = paths.drop_last();
        let p = paths.last();
        assert(is_list(rest)) by {
            assert(forall|i: int| 0 <= i < rest.len() ==> rest[i] == paths[i]);
        }
        lemma_list_lines(rest);
        assert(keepable(paths[paths.len() - 1]));
        assert(!has_nul(p));
        assert(p[p.len() - 1] != 13u8);
        assert(without_cr(p) == p);
        assert(!listed(rest, p)) by {
            if listed(rest, p) {
                let i = choose|i: int| 0 <= i < rest.len() && same_path(#[trigger] rest[i], p);
                assert(same_path(paths[i], paths[paths.len() - 1]));
            }
        }
        assert(rest.push(p) =~= paths);
    }
}

/// What is written is read back: the file of a list, one path per line, reads as that list, in
/// its order.
pub proof fn written_list_reads_back(paths: Seq<Seq<u8>>)
    requires
        is_list(paths),
    ensures
        list_of(file_bytes(paths)) == paths,
{
    lemma_file_lines(paths);
    let lines = paths.push(Seq::<u8>::empty());
    assert(lines.drop_last() =~= paths);
    lemma_list_lines(paths);
    assert(!has_nul(lines.last()));
    assert(without_cr(lines.last()) == Seq::<u8>::empty());
}

/// Whatever a file holds, it reads as absolute paths, none of them twice.
pub proof fn read_list_is_absolute_and_distinct(bytes: Seq<u8>)
    ensures
        forall|i: int| 0 <= i < list_of(bytes).len() ==> is_absolute(#[trigger] list_of(bytes)[i]),
        forall|i: int, j: int|
            0 <= i < j < list_of(bytes).len() ==> !same_path(#[trigger] list_of(bytes)[i], #[trigger] list_of(bytes)[j]),
{
    lemma_lines_distinct(split(bytes, 10u8));
}

proof fn lemma_lines_distinct(lines: Seq<Seq<u8>>)
    ensures
        forall|i: int| 0 <= i < list_of_lines(lines).len() ==> is_absolute(#[trigger] list_of_lines(lines)[i]),
        forall|i: int, j: int|
            0 <= i < j < list_of_lines(lines).len() ==> !same_path(
                #[trigger] list_of_lines(lines)[i],
                #[trigger] list_of_lines(lines)[j],
            ),
    decreases lines.len(),
{
    if lines.len() > 0 {
        lemma_lines_distinct(lines.drop_last());
        let before = list_of_lines(lines.drop_last());
        let after = list_of_lines(lines);
        if after != before {
            let p = without_cr(lines.last());
            assert(after == before.push(p));
            assert forall|i: int, j: int| 0 <= i < j < after.len() implies !same_path(
                #[trigger] after[i],
                #[trigger] after[j],
            ) by {
                if j == after.len() - 1 {
                    assert(after[i] == before[i]);
                    if same_path(after[i], after[j]) {
                        assert(same_path(before[i], p));
                    }
                } else {
                    assert(after[i] == before[i] && after[j] == before[j]);
                }
            }
            assert forall|i: int| 0 <= i < after.len() implies is_absolute(#[trigger] after[i]) by {
                if i < before.len() {
                    assert(after[i] == before[i]);
                }
            }
        }
    }
}

/// Whether `b` is a hexadecimal digit, of either case.
pub open spec fn is_hex(b: u8) -> bool {
    (48 <= b <= 57) || (97 <= b <= 102) || (65 <= b <= 70)
}

/// The value of the hexadecimal digit `b`.
pub open spec fn hex_value(b: u8) -> u8 {
    if 48 <= b <= 57 {
        (b - 48) as u8
    } else if 97 <= b <= 102 {
        (b - 87) as u8
    } else {
        (b - 55) as u8
    }
}

/// `bytes` with every `%` and two hexadecimal digits turned into the byte they name; a `%` without
/// them stays as it is.
pub open spec fn decoded(bytes: Seq<u8>) -> Seq<u8>
    decreases bytes.len(),
{
    if bytes.len() == 0 {
        Seq::empty()
    } else if bytes[0] == 37u8 && bytes.len() >= 3 && is_hex(bytes[1]) && is_hex(bytes[2]) {
        seq![(hex_value(bytes[1]) * 16 + hex_value(bytes[2])) as u8] + decoded(bytes.subrange(3, bytes.len() as int))
    } else {
        seq![bytes[0]] + decoded(bytes.drop_first())
    }
}

fn hex(b: u8) -> (r: Option<u8>)
    ensures
        r matches Some(v) ==> is_hex(b) && v == hex_value(b),
        r is None ==> !is_hex(b),
{
    if 48 <= b && b <= 57 {
        Some(b - 48)
    } else if 97 <= b && b <= 102 {
        Some(b - 87)
    } else if 65 <= b && b <= 70 {
        Some(b - 55)
    } else {
        None
    }
}

/// `bytes` with every `%` and two hexadecimal digits turned into the byte they name; a `%` without
/// them stays as it is.
pub fn percent_decode(bytes: &[u8]) -> (r: Vec<u8>)
    ensures
        r@ == decoded(bytes@),
{
    let mut out: Vec<u8> = Vec::new();
    let mut at: usize = 0;
    assert(bytes@.subrange(0, bytes@.len() as int) =~= bytes@);
    while at < bytes.len()
        invariant
            at <= bytes@.len(),
            out@ + decoded(bytes@.subrange(at as int, bytes@.len() as int)) == decoded(bytes@),
        decreases bytes@.len() - at,
    {
        let ghost rest = bytes@.subrange(at as int, bytes@.len() as int);
        if bytes[at] == 37u8 && bytes.len() - at >= 3 {
            if let (Some(high), Some(low)) = (hex(bytes[at + 1]), hex(bytes[at + 2])) {
                assert(high < 16 && low < 16);
                out.push(high * 16 + low);
                proof {
                    assert(rest.subrange(3, rest.len() as int) =~= bytes@.subrange(at + 3, bytes@.len() as int));
                    assert(out@ + decoded(bytes@.subrange(at + 3, bytes@.len() as int)) =~= decoded(bytes@));
                }
                at += 3;
                continue;
            }
        }
        out.push(bytes[at]);
        proof {
            assert(rest.drop_first() =~= bytes@.subrange(at + 1, bytes@.len() as int));
            assert(out@ + decoded(bytes@.subrange(at + 1, bytes@.len() as int)) =~= decoded(bytes@));
        }
        at += 1;
    }
    assert(out@ + Seq::<u8>::empty() =~= out@);
    out
}

/// Whether `b` starts with `prefix`.
pub open spec fn starts_with(b: Seq<u8>, prefix: Seq<u8>) -> bool {
    prefix.len() <= b.len() && b.subrange(0, prefix.len() as int) == prefix
}

/// Whether the three bytes of `e` at `3 * i` write the byte `b[i]`: `%` and its two hexadecimal
/// digits, each in either case.
pub open spec fn encodes_at(e: Seq<u8>, b: Seq<u8>, i: int) -> bool {
    &&& e[3 * i] == 37u8
    &&& is_hex(e[3 * i + 1])
    &&& is_hex(e[3 * i + 2])
    &&& hex_value(e[3 * i + 1]) * 16 + hex_value(e[3 * i + 2]) == b[i]
}

/// Whether `e` writes each byte of `b` as `%` and its two hexadecimal digits, each digit in
/// either case.
pub open spec fn is_percent_encoding(e: Seq<u8>, b: Seq<u8>) -> bool {
    &&& e.len() == 3 * b.len()
    &&& forall|i: int| 0 <= i < b.len() ==> #[trigger] encodes_at(e, b, i)
}

/// The hexadecimal digit of `v`, below sixteen: a capital letter when `upper`, else a small one.
pub open spec fn hex_digit(v: int, upper: bool) -> u8 {
    if v < 10 {
        (48 + v) as u8
    } else if upper {
        (55 + v) as u8
    } else {
        (87 + v) as u8
    }
}

proof fn lemma_hex_digit(v: int, upper: bool)
    requires
        0 <= v < 16,
    ensures
        is_hex(hex_digit(v, upper)),
        hex_value(hex_digit(v, upper)) == v,
{
}

/// `b` with every byte written as `%` and its two hexadecimal digits, capitals when `upper`.
pub open spec fn encoded(b: Seq<u8>, upper: bool) -> Seq<u8>
    decreases b.len(),
{
    if b.len() == 0 {
        Seq::empty()
    } else {
        seq![37u8, hex_digit(b[0] as int / 16, upper), hex_digit(b[0] as int % 16, upper)] + encoded(
            b.drop_first(),
            upper,
        )
    }
}

/// Writing every byte as `%` and its digits, in either case, is a percent-encoding of the bytes.
pub proof fn encoded_is_an_encoding(b: Seq<u8>, upper: bool)
    ensures
        is_percent_encoding(encoded(b, upper), b),
    decreases b.len(),
{
    if b.len() > 0 {
        let rest = b.drop_first();
        encoded_is_an_encoding(rest, upper);
        let e = encoded(b, upper);
        let tail = encoded(rest, upper);
        let v = b[0] as int;
        assert(v == (v / 16) * 16 + v % 16) by (nonlinear_arith);
        assert(0 <= v / 16 < 16) by (nonlinear_arith)
            requires
                0 <= v < 256,
        ;
        lemma_hex_digit(v / 16, upper);
        lemma_hex_digit(v % 16, upper);
        assert(e =~= seq![37u8, hex_digit(v / 16, upper), hex_digit(v % 16, upper)] + tail);
        assert forall|i: int| 0 <= i < b.len() implies #[trigger] encodes_at(e, b, i) by {
            if i > 0 {
                assert(encodes_at(tail, rest, i - 1));
                assert(rest[i - 1] == b[i]);
                assert(e[3 * i] == tail[3 * (i - 1)]);
                assert(e[3 * i + 1] == tail[3 * (i - 1) + 1]);
                assert(e[3 * i + 2] == tail[3 * (i - 1) + 2]);
            }
        }
    }
}

/// Decoding undoes percent-encoding: every byte written as `%` and its two hexadecimal digits, in
/// either case, reads back as the byte.
pub proof fn decoding_undoes_percent_encoding(e: Seq<u8>, b: Seq<u8>)
    requires
        is_percent_encoding(e, b),
    ensures
        decoded(e) == b,
    decreases b.len(),
{
    if b.len() > 0 {
        let rest = b.drop_first();
        let tail = e.subrange(3, e.len() as int);
        assert(encodes_at(e, b, 0));
        assert forall|i: int| 0 <= i < rest.len() implies #[trigger] encodes_at(tail, rest, i) by {
            assert(encodes_at(e, b, i + 1));
            assert(b[i + 1] == rest[i]);
            assert(tail[3 * i] == e[3 * (i + 1)]);
            assert(tail[3 * i + 1] == e[3 * (i + 1) + 1]);
            assert(tail[3 * i + 2] == e[3 * (i + 1) + 2]);
        }
        decoding_undoes_percent_encoding(tail, rest);
        assert(decoded(e) =~= seq![b[0]] + rest);
    } else {
        assert(e.len() == 0);
    }
}

/// Bytes without a `%` decode to themselves.
pub proof fn decoding_leaves_bytes_without_percent(b: Seq<u8>)
    requires
        forall|i: int| 0 <= i < b.len() ==> b[i] != 37u8,
    ensures
        decoded(b) == b,
    decreases b.len(),
{
    if b.len() > 0 {
        let rest = b.drop_first();
        assert forall|i: int| 0 <= i < rest.len() implies rest[i] != 37u8 by {
            assert(rest[i] == b[i + 1]);
        }
        decoding_leaves_bytes_without_percent(rest);
        assert(decoded(b) =~= seq![b[0]] + rest);
    }
}

/// Decoding never makes bytes longer.
pub proof fn decoding_never_lengthens(b: Seq<u8>)
    ensures
        decoded(b).len() <= b.len(),
    decreases b.len(),
{
    if b.len() > 0 {
        if b[0] == 37u8 && b.len() >= 3 && is_hex(b[1]) && is_hex(b[2]) {
            decoding_never_lengthens(b.subrange(3, b.len() as int));
        } else {
            decoding_never_lengthens(b.drop_first());
        }
    }
}

/// `file://` as bytes.
pub open spec fn file_scheme() -> Seq<u8> {
    seq![102u8, 105u8, 108u8, 101u8, 58u8, 47u8, 47u8]
}

/// `localhost` as bytes.
pub open spec fn localhost() -> Seq<u8> {
    seq![108u8, 111u8, 99u8, 97u8, 108u8, 104u8, 111u8, 115u8, 116u8]
}

/// The path of a `file://` URI on this machine, percent-decoded: `file:///x` has an empty host,
/// `file://localhost/x` names this machine, and any other host is somewhere else.
pub open spec fn local_path_of(uri: Seq<u8>) -> Option<Seq<u8>> {
    if !starts_with(uri, file_scheme()) {
        None
    } else {
        let rest = uri.subrange(7, uri.len() as int);
        let rest = if starts_with(rest, localhost()) {
            rest.subrange(9, rest.len() as int)
        } else {
            rest
        };
        if !(rest.len() > 0 && rest[0] == 47u8) || has_nul(decoded(rest)) {
            None
        } else {
            Some(decoded(rest))
        }
    }
}

fn begins_with(b: &[u8], at: usize, prefix: &Vec<u8>) -> (r: bool)
    requires
        at <= b@.len(),
    ensures
        r == starts_with(b@.subrange(at as int, b@.len() as int), prefix@),
{
    if prefix.len() > b.len() - at {
        return false;
    }
    let mut k: usize = 0;
    while k < prefix.len()
        invariant
            at + prefix@.len() <= b@.len(),
            b@.len() <= usize::MAX,
            k <= prefix@.len(),
            forall|m: int| 0 <= m < k ==> b@[at + m] == prefix@[m],
        decreases prefix@.len() - k,
    {
        if b[at + k] != prefix[k] {
            assert(b@.subrange(at as int, b@.len() as int).subrange(0, prefix@.len() as int)[k as int] != prefix@[k as int]);
            return false;
        }
        k += 1;
    }
    assert(b@.subrange(at as int, b@.len() as int).subrange(0, prefix@.len() as int) =~= prefix@);
    true
}

/// The path of a `file://` URI on this machine, percent-decoded.
pub fn local_path(uri: &[u8]) -> (r: Option<Vec<u8>>)
    ensures
        r matches Some(p) ==> local_path_of(uri@) == Some(p@),
        r is None ==> local_path_of(uri@) is None,
{
    let scheme: Vec<u8> = vec![102u8, 105u8, 108u8, 101u8, 58u8, 47u8, 47u8];
    let host: Vec<u8> = vec![108u8, 111u8, 99u8, 97u8, 108u8, 104u8, 111u8, 115u8, 116u8];
    assert(scheme@ =~= file_scheme());
    assert(host@ =~= localhost());
    assert(uri@.subrange(0, uri@.len() as int) =~= uri@);
    if !begins_with(uri, 0, &scheme) {
        return None;
    }
    let mut at: usize = 7;
    let ghost rest = uri@.subrange(7, uri@.len() as int);
    if begins_with(uri, 7, &host) {
        at = 16;
        assert(rest.subrange(9, rest.len() as int) =~= uri@.subrange(16, uri@.len() as int));
    }
    if !(at < uri.len() && uri[at] == 47u8) {
        return None;
    }
    let mut tail: Vec<u8> = Vec::new();
    push_range(&mut tail, uri, at, uri.len());
    let path = percent_decode(&tail);
    if nul_in(&path) {
        return None;
    }
    Some(path)
}

/// The local folders the lines of a GTK bookmarks file name, in order: each line is a URI and,
/// after a space, an optional label, which is left out.
pub open spec fn bookmark_paths(lines: Seq<Seq<u8>>) -> Seq<Seq<u8>>
    decreases lines.len(),
{
    if lines.len() == 0 {
        Seq::empty()
    } else {
        let before = bookmark_paths(lines.drop_last());
        let uri = split(without_cr(lines.last()), 32u8)[0];
        match local_path_of(uri) {
            Some(p) => before.push(p),
            None => before,
        }
    }
}

/// The paths the `file://` URIs of a GTK bookmarks file holding `bytes` name on this machine, in
/// their order. Which of them are folders is for the caller to find out.
pub fn bookmarks(bytes: &[u8]) -> (r: Vec<Vec<u8>>)
    ensures
        views(r@) == bookmark_paths(split(bytes@, 10u8)),
{
    let lines = split_bytes(bytes, 10u8);
    let ghost all = split(bytes@, 10u8);
    let mut out: Vec<Vec<u8>> = Vec::new();
    let mut k: usize = 0;
    assert(all.take(0) =~= Seq::<Seq<u8>>::empty());
    while k < lines.len()
        invariant
            views(lines@) == all,
            k <= all.len(),
            views(out@) == bookmark_paths(all.take(k as int)),
        decreases all.len() - k,
    {
        let line = &lines[k];
        assert(line@ == all[k as int]);
        assert(all.take(k + 1).drop_last() =~= all.take(k as int));
        let end = if line.len() > 0 && line[line.len() - 1] == 13u8 {
            line.len() - 1
        } else {
            line.len()
        };
        let mut bare: Vec<u8> = Vec::new();
        push_range(&mut bare, line, 0, end);
        assert(bare@ =~= without_cr(line@));
        let words = split_bytes(&bare, 32u8);
        proof {
            crate::text::lemma_split_len(bare@, 32u8);
        }
        let ghost before = views(out@);
        match local_path(&words[0]) {
            Some(p) => {
                out.push(p);
                assert(views(out@) =~= before.push(local_path_of(split(bare@, 32u8)[0])->0));
            },
            None => {},
        }
        k += 1;
    }
    assert(all.take(k as int) =~= all);
    out
}

/// What starting with the list comes to: the list kept in qexp's own file when there is one, or
/// else the desktop's GTK bookmarks taken in once, which are then to be written as the first list.
/// Without either the list is empty and nothing is written, so the import can still happen on a
/// later start once the desktop has made its file.
pub open spec fn loaded(kept: Option<Seq<Seq<u8>>>, bookmarked: Option<Seq<Seq<u8>>>) -> (Seq<Seq<u8>>, bool) {
    match kept {
        Some(paths) => (paths, false),
        None => match bookmarked {
            Some(paths) => (paths, true),
            None => (Seq::empty(), false),
        },
    }
}

/// What starting with the list comes to, from the list read from qexp's own file (`None` when it
/// has never been written) and the local folders of the GTK bookmarks (`None` when there is no
/// such file; it is only read when `kept` is `None`): the list, and whether it is to be written.
///
/// A file that is there but cannot be read counts as written: importing over it would replace a
/// list the person made with the desktop's.
pub fn load(kept: Option<Vec<Vec<u8>>>, bookmarked: Option<Vec<Vec<u8>>>) -> (r: (Vec<Vec<u8>>, bool))
    ensures
        (views(r.0@), r.1) == loaded(
            match kept {
                Some(p) => Some(views(p@)),
                None => None,
            },
            match bookmarked {
                Some(p) => Some(views(p@)),
                None => None,
            },
        ),
{
    match kept {
        Some(paths) => (paths, false),
        None => match bookmarked {
            Some(paths) => (paths, true),
            None => {
                let empty: Vec<Vec<u8>> = Vec::new();
                assert(views(empty@) =~= Seq::<Seq<u8>>::empty());
                (empty, false)
            },
        },
    }
}

/// What starting with the list came to.
#[derive(Debug, Default)]
pub struct Loaded {
    /// The favourites, in the sidebar's order.
    pub paths: Vec<Vec<u8>>,
    /// Why the list taken in from the GTK bookmarks could not be written, when it could not.
    pub error: Option<String>,
}

/// The list `found` makes when each of its paths is added in turn with [`with_new`]: the absolute
/// ones, each once, in order.
pub open spec fn collected(found: Seq<Seq<u8>>) -> Seq<Seq<u8>>
    decreases found.len(),
{
    if found.len() == 0 {
        Seq::empty()
    } else {
        with_new(collected(found.drop_last()), found.last())
    }
}

/// The list the folders `found` make, each added in turn as [`push_new`] adds it: the absolute
/// ones, each once, in their order. This is how the GTK bookmarks are taken in.
pub fn take_in(found: &Vec<Vec<u8>>) -> (r: Vec<Vec<u8>>)
    ensures
        views(r@) == collected(views(found@)),
{
    let ghost all = views(found@);
    let mut paths: Vec<Vec<u8>> = Vec::new();
    let mut k: usize = 0;
    assert(all.take(0) =~= Seq::<Seq<u8>>::empty());
    while k < found.len()
        invariant
            all == views(found@),
            k <= found@.len(),
            views(paths@) == collected(all.take(k as int)),
        decreases found@.len() - k,
    {
        let path = &found[k];
        assert(path@ == all[k as int]);
        assert(all.take(k + 1).drop_last() =~= all.take(k as int));
        let mut copy: Vec<u8> = Vec::new();
        push_range(&mut copy, path, 0, path.len());
        assert(path@.subrange(0, path@.len() as int) =~= path@);
        push_new(&mut paths, copy);
        k += 1;
    }
    assert(all.take(k as int) =~= all);
    paths
}

/// Whether `path` has no line break and no zero byte in it.
pub open spec fn on_one_line(path: Seq<u8>) -> bool {
    forall|i: int| 0 <= i < path.len() ==> path[i] != 10u8 && path[i] != 13u8 && path[i] != 0u8
}

/// Paths without a line break, collected, make a list the file can hold.
proof fn lemma_collected_is_list(found: Seq<Seq<u8>>)
    requires
        forall|i: int| 0 <= i < found.len() ==> on_one_line(#[trigger] found[i]),
    ensures
        is_list(collected(found)),
    decreases found.len(),
{
    if found.len() > 0 {
        let rest = found.drop_last();
        assert forall|i: int| 0 <= i < rest.len() implies on_one_line(#[trigger] rest[i]) by {
            assert(rest[i] == found[i]);
        }
        lemma_collected_is_list(rest);
        let before = collected(rest);
        let path = found.last();
        assert(on_one_line(found[found.len() - 1]));
        let after = collected(found);
        if after != before {
            assert(after == before.push(path));
            assert forall|a: int, b: int| 0 <= a < b < after.len() implies !same_path(
                #[trigger] after[a],
                #[trigger] after[b],
            ) by {
                if b == before.len() {
                    assert(after[a] == before[a]);
                    if same_path(after[a], after[b]) {
                        assert(0 <= a < before.len() && same_path(before[a], path));
                    }
                } else {
                    assert(after[a] == before[a] && after[b] == before[b]);
                }
            }
            assert forall|k: int| 0 <= k < after.len() implies keepable(#[trigger] after[k]) by {
                if k < before.len() {
                    assert(after[k] == before[k]);
                }
            }
        }
    }
}

/// The GTK bookmarks are taken in once: on the first start, with no list of qexp's own, the
/// folders they name (each without a line break) make the list, which is then written; the file
/// written reads back as that list, and on every later start the list kept wins, whatever the
/// bookmarks hold by then.
pub proof fn bookmarks_are_taken_in_once(found: Seq<Seq<u8>>, later: Option<Seq<Seq<u8>>>)
    requires
        forall|i: int| 0 <= i < found.len() ==> on_one_line(#[trigger] found[i]),
    ensures
        is_list(collected(found)),
        loaded(None, Some(collected(found))) == (collected(found), true),
        list_of(file_bytes(collected(found))) == collected(found),
        loaded(Some(list_of(file_bytes(collected(found)))), later) == (collected(found), false),
{
    lemma_collected_is_list(found);
    written_list_reads_back(collected(found));
}

/// More bytes after `s` leave its pieces before the last as they are.
proof fn lemma_split_keeps_front(s: Seq<u8>, t: Seq<u8>, sep: u8)
    ensures
        split(s + t, sep).len() >= split(s, sep).len(),
        forall|i: int| 0 <= i < split(s, sep).len() - 1 ==> #[trigger] split(s + t, sep)[i] == split(s, sep)[i],
    decreases t.len(),
{
    crate::text::lemma_split_len(s, sep);
    if t.len() == 0 {
        assert(s + t =~= s);
    } else {
        let u = t.drop_last();
        lemma_split_keeps_front(s, u, sep);
        assert((s + t).drop_last() =~= s + u);
        crate::text::lemma_split_len(s + u, sep);
    }
}

/// Bytes with no `sep` in them are one piece.
proof fn lemma_split_whole(s: Seq<u8>, sep: u8)
    requires
        forall|i: int| 0 <= i < s.len() ==> s[i] != sep,
    ensures
        split(s, sep) == seq![s],
{
    lemma_split_append_free(Seq::<u8>::empty(), s, sep);
    assert(Seq::<u8>::empty() + s =~= s);
    assert(seq![Seq::<u8>::empty()].update(0, Seq::<u8>::empty() + s) =~= seq![s]);
}

/// A bookmark's line is its URI and, after a space, a label, which never becomes part of the
/// path, whatever it holds: the folder read from `uri label` is the folder read from `uri` alone,
/// the local path of the URI when it names one on this machine.
pub proof fn a_label_never_joins_the_path(uri: Seq<u8>, label: Seq<u8>)
    requires
        forall|i: int| 0 <= i < uri.len() ==> uri[i] != 32u8 && uri[i] != 10u8 && uri[i] != 13u8,
    ensures
        bookmark_paths(seq![uri + seq![32u8] + label]) == bookmark_paths(seq![uri]),
        bookmark_paths(seq![uri]) == match local_path_of(uri) {
            Some(p) => seq![p],
            None => Seq::<Seq<u8>>::empty(),
        },
{
    let line = uri + seq![32u8] + label;
    let bare = without_cr(line);
    let head = uri.push(32u8);
    let tail = if label.len() > 0 && label.last() == 13u8 {
        label.drop_last()
    } else {
        label
    };
    assert(bare =~= head + tail);
    lemma_split_whole(uri, 32u8);
    lemma_split_push_sep(uri, 32u8);
    lemma_split_keeps_front(head, tail, 32u8);
    assert(split(bare, 32u8)[0] == uri);
    assert(seq![line].drop_last() =~= Seq::<Seq<u8>>::empty());
    assert(seq![uri].drop_last() =~= Seq::<Seq<u8>>::empty());
    assert(without_cr(uri) == uri);
    assert(split(without_cr(uri), 32u8)[0] == uri);
    assert(bookmark_paths(Seq::<Seq<u8>>::empty()) == Seq::<Seq<u8>>::empty());
    if let Some(p) = local_path_of(uri) {
        assert(Seq::<Seq<u8>>::empty().push(p) =~= seq![p]);
    }
}

} // verus!
