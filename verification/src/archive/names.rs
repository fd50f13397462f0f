//! What an archive is called: which endings mark one, the name it unpacks under, and the
//! numbered names tried when that name is taken.

use vstd::prelude::*;
use vstd::string::StringSliceAdditionalSpecFns;

use super::{Compressor, Format};
use crate::text::{decimal, push_decimal, push_range};

verus! {

/// How many archive endings there are.
pub const ENDING_COUNT: usize = 36;

/// The archive ending `i`, without the dot before it, with the format it marks. When several fit a
/// name the longest wins, so `.tar.gz` is a tar and not a lone gzip file, and a package's
/// `.pkg.tar.zst` is dropped whole from its stem.
pub open spec fn ending_spec(i: int) -> (Seq<u8>, Format) {
    if i == 0 {
        ("zip".spec_bytes(), Format::Zip)
    } else if i == 1 {
        ("jar".spec_bytes(), Format::Zip)
    } else if i == 2 {
        ("apk".spec_bytes(), Format::Zip)
    } else if i == 3 {
        ("cbz".spec_bytes(), Format::Zip)
    } else if i == 4 {
        ("war".spec_bytes(), Format::Zip)
    } else if i == 5 {
        ("ear".spec_bytes(), Format::Zip)
    } else if i == 6 {
        ("xpi".spec_bytes(), Format::Zip)
    } else if i == 7 {
        ("tar".spec_bytes(), Format::Tar)
    } else if i == 8 {
        ("pkg.tar.zst".spec_bytes(), Format::Tar)
    } else if i == 9 {
        ("tar.gz".spec_bytes(), Format::Tar)
    } else if i == 10 {
        ("tgz".spec_bytes(), Format::Tar)
    } else if i == 11 {
        ("tar.bz2".spec_bytes(), Format::Tar)
    } else if i == 12 {
        ("tbz".spec_bytes(), Format::Tar)
    } else if i == 13 {
        ("tbz2".spec_bytes(), Format::Tar)
    } else if i == 14 {
        ("tar.xz".spec_bytes(), Format::Tar)
    } else if i == 15 {
        ("txz".spec_bytes(), Format::Tar)
    } else if i == 16 {
        ("tar.zst".spec_bytes(), Format::Tar)
    } else if i == 17 {
        ("tzst".spec_bytes(), Format::Tar)
    } else if i == 18 {
        ("tar.lz".spec_bytes(), Format::Tar)
    } else if i == 19 {
        ("tar.lzma".spec_bytes(), Format::Tar)
    } else if i == 20 {
        ("tar.lz4".spec_bytes(), Format::Tar)
    } else if i == 21 {
        ("tar.z".spec_bytes(), Format::Tar)
    } else if i == 22 {
        ("7z".spec_bytes(), Format::SevenZip)
    } else if i == 23 {
        ("rar".spec_bytes(), Format::Rar)
    } else if i == 24 {
        ("cbr".spec_bytes(), Format::Rar)
    } else if i == 25 {
        ("iso".spec_bytes(), Format::Disk)
    } else if i == 26 {
        ("cpio".spec_bytes(), Format::Disk)
    } else if i == 27 {
        ("deb".spec_bytes(), Format::Disk)
    } else if i == 28 {
        ("rpm".spec_bytes(), Format::Disk)
    } else if i == 29 {
        ("gz".spec_bytes(), Format::Single(Compressor::Gzip))
    } else if i == 30 {
        ("bz2".spec_bytes(), Format::Single(Compressor::Bzip2))
    } else if i == 31 {
        ("xz".spec_bytes(), Format::Single(Compressor::Xz))
    } else if i == 32 {
        ("zst".spec_bytes(), Format::Single(Compressor::Zstd))
    } else if i == 33 {
        ("lz4".spec_bytes(), Format::Single(Compressor::Lz4))
    } else if i == 34 {
        ("lzma".spec_bytes(), Format::Single(Compressor::Lzma))
    } else if i == 35 {
        ("lz".spec_bytes(), Format::Single(Compressor::Lzip))
    } else {
        (Seq::empty(), Format::Zip)
    }
}

/// `b` with an ASCII capital turned into its small letter.
pub open spec fn ascii_lower(b: u8) -> u8 {
    if 65 <= b && b <= 90 {
        (b + 32) as u8
    } else {
        b
    }
}

/// Whether `name` ends in a dot and then `end`, ignoring ASCII case, with something before the
/// dot or not.
pub open spec fn has_ending(name: Seq<u8>, end: Seq<u8>) -> bool {
    &&& name.len() > end.len()
    &&& name[name.len() - end.len() - 1] == 46u8
    &&& forall|k: int| 0 <= k < end.len() ==> ascii_lower(#[trigger] name[name.len() - end.len() + k]) == ascii_lower(end[k])
}

/// Whether the archive ending `i` fits `name`.
pub open spec fn ending_fits(name: Seq<u8>, i: int) -> bool {
    0 <= i < ENDING_COUNT && has_ending(name, ending_spec(i).0)
}

/// Whether `i` is the ending of `name` that counts: it fits, and every other that fits is
/// shorter, or as long and earlier in the table.
pub open spec fn is_longest_ending(name: Seq<u8>, i: int) -> bool {
    &&& ending_fits(name, i)
    &&& forall|j: int| #[trigger] ending_fits(name, j) ==> ending_spec(j).0.len() < ending_spec(i).0.len() || (
    ending_spec(j).0.len() == ending_spec(i).0.len() && j <= i)
}

/// The ending of `name` that counts, by its place in the table.
pub open spec fn ending_index(name: Seq<u8>) -> Option<int> {
    if exists|i: int| is_longest_ending(name, i) {
        Some(choose|i: int| is_longest_ending(name, i))
    } else {
        None
    }
}

/// What kind of archive a file named `name` (its bytes) is.
pub open spec fn archive_format(name: Seq<u8>) -> Option<Format> {
    match ending_index(name) {
        Some(i) => Some(ending_spec(i).1),
        None => None,
    }
}

/// The name without its archive ending, or the name whole when it is nothing but the ending or
/// has none.
pub open spec fn stem_bytes(name: Seq<u8>) -> Seq<u8> {
    match ending_index(name) {
        Some(i) if name.len() > ending_spec(i).0.len() + 1 => name.subrange(
            0,
            name.len() - ending_spec(i).0.len() - 1,
        ),
        _ => name,
    }
}

/// The one ending that counts for a name.
pub proof fn lemma_longest_unique(name: Seq<u8>, i: int, j: int)
    requires
        is_longest_ending(name, i),
        is_longest_ending(name, j),
    ensures
        i == j,
{
}

/// The bytes of ASCII text are as many as its characters.
proof fn lemma_ascii_len(s: &str)
    requires
        vstd::string::is_ascii(s),
    ensures
        s.spec_bytes().len() == s@.len(),
{
    broadcast use vstd::string::is_ascii_spec_bytes;

}

/// No archive ending is longer than eleven bytes, `pkg.tar.zst`, without its dot.
#[verifier::rlimit(50)]
proof fn lemma_ending_short(i: int)
    requires
        0 <= i < ENDING_COUNT,
    ensures
        ending_spec(i).0.len() <= 11,
{
    if i == 0 {
        assert(ending_spec(i).0.len() <= 11) by {
            reveal_strlit("zip");
            lemma_ascii_len("zip");
        }
    } else if i == 1 {
        assert(ending_spec(i).0.len() <= 11) by {
            reveal_strlit("jar");
            lemma_ascii_len("jar");
        }
    } else if i == 2 {
        assert(ending_spec(i).0.len() <= 11) by {
            reveal_strlit("apk");
            lemma_ascii_len("apk");
        }
    } else if i == 3 {
        assert(ending_spec(i).0.len() <= 11) by {
            reveal_strlit("cbz");
            lemma_ascii_len("cbz");
        }
    } else if i == 4 {
        assert(ending_spec(i).0.len() <= 11) by {
            reveal_strlit("war");
            lemma_ascii_len("war");
        }
    } else if i == 5 {
        assert(ending_spec(i).0.len() <= 11) by {
            reveal_strlit("ear");
            lemma_ascii_len("ear");
        }
    } else if i == 6 {
        assert(ending_spec(i).0.len() <= 11) by {
            reveal_strlit("xpi");
            lemma_ascii_len("xpi");
        }
    } else if i == 7 {
        assert(ending_spec(i).0.len() <= 11) by {
            reveal_strlit("tar");
            lemma_ascii_len("tar");
        }
    } else if i == 8 {
        assert(ending_spec(i).0.len() <= 11) by {
            reveal_strlit("pkg.tar.zst");
            lemma_ascii_len("pkg.tar.zst");
        }
    } else if i == 9 {
        assert(ending_spec(i).0.len() <= 11) by {
            reveal_strlit("tar.gz");
            lemma_ascii_len("tar.gz");
        }
    } else if i == 10 {
        assert(ending_spec(i).0.len() <= 11) by {
            reveal_strlit("tgz");
            lemma_ascii_len("tgz");
        }
    } else if i == 11 {
        assert(ending_spec(i).0.len() <= 11) by {
            reveal_strlit("tar.bz2");
            lemma_ascii_len("tar.bz2");
        }
    } else if i == 12 {
        assert(ending_spec(i).0.len() <= 11) by {
            reveal_strlit("tbz");
            lemma_ascii_len("tbz");
        }
    } else if i == 13 {
        assert(ending_spec(i).0.len() <= 11) by {
            reveal_strlit("tbz2");
            lemma_ascii_len("tbz2");
        }
    } else if i == 14 {
        assert(ending_spec(i).0.len() <= 11) by {
            reveal_strlit("tar.xz");
            lemma_ascii_len("tar.xz");
        }
    } else if i == 15 {
        assert(ending_spec(i).0.len() <= 11) by {
            reveal_strlit("txz");
            lemma_ascii_len("txz");
        }
    } else if i == 16 {
        assert(ending_spec(i).0.len() <= 11) by {
            reveal_strlit("tar.zst");
            lemma_ascii_len("tar.zst");
        }
    } else if i == 17 {
        assert(ending_spec(i).0.len() <= 11) by {
            reveal_strlit("tzst");
            lemma_ascii_len("tzst");
        }
    } else if i == 18 {
        assert(ending_spec(i).0.len() <= 11) by {
            reveal_strlit("tar.lz");
            lemma_ascii_len("tar.lz");
        }
    } else if i == 19 {
        assert(ending_spec(i).0.len() <= 11) by {
            reveal_strlit("tar.lzma");
            lemma_ascii_len("tar.lzma");
        }
    } else if i == 20 {
        assert(ending_spec(i).0.len() <= 11) by {
            reveal_strlit("tar.lz4");
            lemma_ascii_len("tar.lz4");
        }
    } else if i == 21 {
        assert(ending_spec(i).0.len() <= 11) by {
            reveal_strlit("tar.z");
            lemma_ascii_len("tar.z");
        }
    } else if i == 22 {
        assert(ending_spec(i).0.len() <= 11) by {
            reveal_strlit("7z");
            lemma_ascii_len("7z");
        }
    } else if i == 23 {
        assert(ending_spec(i).0.len() <= 11) by {
            reveal_strlit("rar");
            lemma_ascii_len("rar");
        }
    } else if i == 24 {
        assert(ending_spec(i).0.len() <= 11) by {
            reveal_strlit("cbr");
            lemma_ascii_len("cbr");
        }
    } else if i == 25 {
        assert(ending_spec(i).0.len() <= 11) by {
            reveal_strlit("iso");
            lemma_ascii_len("iso");
        }
    } else if i == 26 {
        assert(ending_spec(i).0.len() <= 11) by {
            reveal_strlit("cpio");
            lemma_ascii_len("cpio");
        }
    } else if i == 27 {
        assert(ending_spec(i).0.len() <= 11) by {
            reveal_strlit("deb");
            lemma_ascii_len("deb");
        }
    } else if i == 28 {
        assert(ending_spec(i).0.len() <= 11) by {
            reveal_strlit("rpm");
            lemma_ascii_len("rpm");
        }
    } else if i == 29 {
        assert(ending_spec(i).0.len() <= 11) by {
            reveal_strlit("gz");
            lemma_ascii_len("gz");
        }
    } else if i == 30 {
        assert(ending_spec(i).0.len() <= 11) by {
            reveal_strlit("bz2");
            lemma_ascii_len("bz2");
        }
    } else if i == 31 {
        assert(ending_spec(i).0.len() <= 11) by {
            reveal_strlit("xz");
            lemma_ascii_len("xz");
        }
    } else if i == 32 {
        assert(ending_spec(i).0.len() <= 11) by {
            reveal_strlit("zst");
            lemma_ascii_len("zst");
        }
    } else if i == 33 {
        assert(ending_spec(i).0.len() <= 11) by {
            reveal_strlit("lz4");
            lemma_ascii_len("lz4");
        }
    } else if i == 34 {
        assert(ending_spec(i).0.len() <= 11) by {
            reveal_strlit("lzma");
            lemma_ascii_len("lzma");
        }
    } else if i == 35 {
        assert(ending_spec(i).0.len() <= 11) by {
            reveal_strlit("lz");
            lemma_ascii_len("lz");
        }
    }
}

/// The archive ending `i`.
fn ending(i: usize) -> (r: (&'static [u8], Format))
    requires
        i < ENDING_COUNT,
    ensures
        r.0@ == ending_spec(i as int).0,
        r.1 == ending_spec(i as int).1,
{
    match i {
        0 => ("zip".as_bytes(), Format::Zip),
        1 => ("jar".as_bytes(), Format::Zip),
        2 => ("apk".as_bytes(), Format::Zip),
        3 => ("cbz".as_bytes(), Format::Zip),
        4 => ("war".as_bytes(), Format::Zip),
        5 => ("ear".as_bytes(), Format::Zip),
        6 => ("xpi".as_bytes(), Format::Zip),
        7 => ("tar".as_bytes(), Format::Tar),
        8 => ("pkg.tar.zst".as_bytes(), Format::Tar),
        9 => ("tar.gz".as_bytes(), Format::Tar),
        10 => ("tgz".as_bytes(), Format::Tar),
        11 => ("tar.bz2".as_bytes(), Format::Tar),
        12 => ("tbz".as_bytes(), Format::Tar),
        13 => ("tbz2".as_bytes(), Format::Tar),
        14 => ("tar.xz".as_bytes(), Format::Tar),
        15 => ("txz".as_bytes(), Format::Tar),
        16 => ("tar.zst".as_bytes(), Format::Tar),
        17 => ("tzst".as_bytes(), Format::Tar),
        18 => ("tar.lz".as_bytes(), Format::Tar),
        19 => ("tar.lzma".as_bytes(), Format::Tar),
        20 => ("tar.lz4".as_bytes(), Format::Tar),
        21 => ("tar.z".as_bytes(), Format::Tar),
        22 => ("7z".as_bytes(), Format::SevenZip),
        23 => ("rar".as_bytes(), Format::Rar),
        24 => ("cbr".as_bytes(), Format::Rar),
        25 => ("iso".as_bytes(), Format::Disk),
        26 => ("cpio".as_bytes(), Format::Disk),
        27 => ("deb".as_bytes(), Format::Disk),
        28 => ("rpm".as_bytes(), Format::Disk),
        29 => ("gz".as_bytes(), Format::Single(Compressor::Gzip)),
        30 => ("bz2".as_bytes(), Format::Single(Compressor::Bzip2)),
        31 => ("xz".as_bytes(), Format::Single(Compressor::Xz)),
        32 => ("zst".as_bytes(), Format::Single(Compressor::Zstd)),
        33 => ("lz4".as_bytes(), Format::Single(Compressor::Lz4)),
        34 => ("lzma".as_bytes(), Format::Single(Compressor::Lzma)),
        35 => ("lz".as_bytes(), Format::Single(Compressor::Lzip)),
        _ => ("lz".as_bytes(), Format::Single(Compressor::Lzip)),
    }
}

fn lower(b: u8) -> (r: u8)
    ensures
        r == ascii_lower(b),
{
    if 65 <= b && b <= 90 {
        b + 32
    } else {
        b
    }
}

/// Whether `name` ends in a dot and `end`, ignoring ASCII case.
fn ends_in(name: &[u8], end: &[u8]) -> (r: bool)
    ensures
        r == has_ending(name@, end@),
{
    if name.len() <= end.len() {
        return false;
    }
    let start = name.len() - end.len();
    if name[start - 1] != 46u8 {
        return false;
    }
    let mut k: usize = 0;
    while k < end.len()
        invariant
            start == name@.len() - end@.len(),
            name@.len() <= usize::MAX,
            k <= end@.len(),
            forall|m: int| 0 <= m < k ==> ascii_lower(#[trigger] name@[start + m]) == ascii_lower(end@[m]),
        decreases end@.len() - k,
    {
        if lower(name[start + k]) != lower(end[k]) {
            assert(!(ascii_lower(name@[name@.len() - end@.len() + k as int]) == ascii_lower(end@[k as int])));
            return false;
        }
        k += 1;
    }
    true
}

/// The place in the table of the archive ending of `name` that counts, if any fits.
fn ending_of(name: &[u8]) -> (r: Option<usize>)
    ensures
        r matches Some(i) ==> is_longest_ending(name@, i as int) && ending_index(name@) == Some(i as int),
        r is None ==> ending_index(name@) is None,
{
    let mut best: Option<usize> = None;
    let mut best_len: usize = 0;
    let mut i: usize = 0;
    while i < ENDING_COUNT
        invariant
            i <= ENDING_COUNT,
            best is None ==> forall|j: int| 0 <= j < i ==> !ending_fits(name@, j),
            best matches Some(b) ==> {
                &&& b < i
                &&& ending_fits(name@, b as int)
                &&& best_len == ending_spec(b as int).0.len()
                &&& forall|j: int| 0 <= j < i && #[trigger] ending_fits(name@, j) ==> ending_spec(j).0.len() < best_len || (
                ending_spec(j).0.len() == best_len && j <= b)
            },
        decreases ENDING_COUNT - i,
    {
        let (end, _) = ending(i);
        if ends_in(name, end) && (best.is_none() || end.len() >= best_len) {
            best = Some(i);
            best_len = end.len();
        }
        i += 1;
    }
    match best {
        Some(b) => {
            assert(is_longest_ending(name@, b as int));
            assert(ending_index(name@) == Some(b as int)) by {
                let c = choose|c: int| is_longest_ending(name@, c);
                lemma_longest_unique(name@, b as int, c);
            }
        },
        None => {
            assert(!exists|c: int| is_longest_ending(name@, c));
        },
    }
    best
}

/// What kind of archive a file is, from its name alone, ignoring case.
///
/// Zip: `zip jar apk cbz war ear xpi`. Tar: `tar`, and a tar squeezed by any compressor (`tar.gz
/// tgz tar.bz2 tbz tbz2 tar.xz txz tar.zst tzst tar.lz tar.lzma tar.lz4 tar.z`), which includes a
/// package's `pkg.tar.zst`. `7z`. Rar: `rar cbr`. Disk: `iso cpio deb rpm`. A lone compressed
/// file: `gz bz2 xz zst lz4 lzma lz`. `None` for anything else.
pub fn format_of(name: &str) -> (r: Option<Format>)
    ensures
        r == archive_format(name.spec_bytes()),
{
    match ending_of(name.as_bytes()) {
        Some(i) => Some(ending(i).1),
        None => None,
    }
}

/// The name without its archive ending: `yedek.tar.gz` gives `yedek`, `notes.txt.gz` gives
/// `notes.txt` and `a.zip` gives `a`.
///
/// Never empty for a name that is not: a name that is nothing but an ending, such as `.zip`, is
/// returned whole, since an empty name could not be given to anything. A name with no archive
/// ending is returned as it is.
pub fn stem(name: &str) -> (r: &str)
    ensures
        r.spec_bytes() == stem_bytes(name.spec_bytes()),
{
    let bytes = name.as_bytes();
    match ending_of(bytes) {
        Some(i) => {
            let end = ending(i).0;
            if bytes.len() > end.len() + 1 {
                let cut = bytes.len() - end.len() - 1;
                proof {
                    let b = name.spec_bytes();
                    vstd::utf8::encode_utf8_valid_utf8(name@);
                    vstd::utf8::is_char_boundary_iff_not_is_continuation_byte(b, cut as int);
                    assert(b[cut as int] == 46u8);
                }
                let (head, _) = name.split_at(cut);
                head
            } else {
                name
            }
        },
        None => name,
    }
}

/// The place of the last dot in `name`.
pub open spec fn last_dot(name: Seq<u8>) -> Option<int>
    decreases name.len(),
{
    if name.len() == 0 {
        None
    } else if name.last() == 46u8 {
        Some(name.len() - 1)
    } else {
        last_dot(name.drop_last())
    }
}

/// The `n`th choice of name for `wanted`: the name itself first, then `stem 2.ext`, `stem 3.ext`
/// and on; a folder's name, and a name whose only dot is its first, is numbered at its end.
pub open spec fn numbered_name(wanted: Seq<u8>, n: nat, is_folder: bool) -> Seq<u8> {
    if n <= 1 {
        wanted
    } else {
        match last_dot(wanted) {
            Some(dot) if !is_folder && dot > 0 => wanted.subrange(0, dot) + seq![32u8] + decimal(n)
                + wanted.subrange(dot, wanted.len() as int),
            _ => wanted + seq![32u8] + decimal(n),
        }
    }
}

proof fn lemma_last_dot(name: Seq<u8>)
    ensures
        last_dot(name) matches Some(d) ==> 0 <= d < name.len() && name[d] == 46u8 && forall|j: int|
            d < j < name.len() ==> name[j] != 46u8,
        last_dot(name) is None ==> forall|j: int| 0 <= j < name.len() ==> name[j] != 46u8,
    decreases name.len(),
{
    if name.len() > 0 && name.last() != 46u8 {
        let rest = name.drop_last();
        lemma_last_dot(rest);
        assert(forall|j: int| 0 <= j < rest.len() ==> rest[j] == #[trigger] name[j]);
    }
}

fn find_last_dot(name: &[u8]) -> (r: Option<usize>)
    ensures
        r matches Some(d) ==> last_dot(name@) == Some(d as int),
        r is None ==> last_dot(name@) is None,
{
    let mut k = name.len();
    assert(name@.subrange(0, k as int) =~= name@);
    while k > 0
        invariant
            k <= name@.len(),
            last_dot(name@) == last_dot(name@.subrange(0, k as int)),
        decreases k,
    {
        if name[k - 1] == 46u8 {
            return Some(k - 1);
        }
        assert(name@.subrange(0, k as int).drop_last() =~= name@.subrange(0, k - 1));
        k -= 1;
    }
    proof {
        assert(name@.subrange(0, 0) =~= Seq::<u8>::empty());
    }
    None
}

/// The `n`th choice of name for `wanted`: the name itself first, then `stem 2.ext`, `stem 3.ext`
/// and on. A folder's name is never split, since a dot in a folder's name is not an extension; nor
/// is a file whose only dot is its first, such as `.bashrc`, which is hidden rather than extended.
pub fn numbered(wanted: &[u8], n: usize, is_folder: bool) -> (r: Vec<u8>)
    ensures
        r@ == numbered_name(wanted@, n as nat, is_folder),
{
    let mut out: Vec<u8> = Vec::new();
    if n <= 1 {
        push_range(&mut out, wanted, 0, wanted.len());
        assert(wanted@.subrange(0, wanted@.len() as int) =~= wanted@);
        return out;
    }
    match find_last_dot(wanted) {
        Some(dot) if !is_folder && dot > 0 => {
            proof {
                lemma_last_dot(wanted@);
            }
            push_range(&mut out, wanted, 0, dot);
            out.push(32u8);
            push_decimal(&mut out, n as u64);
            push_range(&mut out, wanted, dot, wanted.len());
            proof {
                lemma_last_dot(wanted@);
                assert(out@ =~= numbered_name(wanted@, n as nat, is_folder));
            }
        },
        _ => {
            push_range(&mut out, wanted, 0, wanted.len());
            out.push(32u8);
            push_decimal(&mut out, n as u64);
            proof {
                assert(wanted@.subrange(0, wanted@.len() as int) =~= wanted@);
                assert(out@ =~= numbered_name(wanted@, n as nat, is_folder));
            }
        },
    }
    out
}

proof fn lemma_decimal_len(n: nat)
    ensures
        decimal(n).len() >= 1,
        n >= 10 ==> decimal(n).len() >= 2,
    decreases n,
{
    if n >= 10 {
        lemma_decimal_len(n / 10);
    }
}

/// Two numbers never write the same digits.
proof fn lemma_decimal_injective(n: nat, m: nat)
    requires
        decimal(n) == decimal(m),
    ensures
        n == m,
    decreases n,
{
    lemma_decimal_len(n);
    lemma_decimal_len(m);
    if n >= 10 && m >= 10 {
        let dn = decimal(n);
        let dm = decimal(m);
        assert(dn.last() == dm.last());
        assert(dn.drop_last() =~= decimal(n / 10));
        assert(dm.drop_last() =~= decimal(m / 10));
        lemma_decimal_injective(n / 10, m / 10);
        assert(n % 10 == m % 10);
        assert(n == 10 * (n / 10) + n % 10) by (nonlinear_arith);
        assert(m == 10 * (m / 10) + m % 10) by (nonlinear_arith);
    } else if n < 10 && m < 10 {
        assert(decimal(n)[0] == decimal(m)[0]);
        assert(decimal(n)[0] == 48 + n);
        assert(decimal(m)[0] == 48 + m);
    } else {
        assert(decimal(n).len() != decimal(m).len());
    }
}

/// Every choice of name for `wanted` is another name: trying them in turn always reaches one not
/// tried before.
pub proof fn numbered_names_differ(wanted: Seq<u8>, n: nat, m: nat, is_folder: bool)
    requires
        1 <= n,
        1 <= m,
        n != m,
    ensures
        numbered_name(wanted, n, is_folder) != numbered_name(wanted, m, is_folder),
{
    lemma_decimal_len(n);
    lemma_decimal_len(m);
    lemma_last_dot(wanted);
    let a = numbered_name(wanted, n, is_folder);
    let b = numbered_name(wanted, m, is_folder);
    if n == 1 || m == 1 {
        assert(a.len() != b.len());
    } else {
        let dn = decimal(n);
        let dm = decimal(m);
        let head = match last_dot(wanted) {
            Some(dot) if !is_folder && dot > 0 => wanted.subrange(0, dot),
            _ => wanted,
        };
        let h = head.len() as int;
        if dn.len() != dm.len() {
            assert(a.len() != b.len());
        } else if a == b {
            assert(a.subrange(h + 1, h + 1 + dn.len()) =~= dn);
            assert(b.subrange(h + 1, h + 1 + dm.len()) =~= dm);
            lemma_decimal_injective(n, m);
        }
    }
}

/// The stem of a name is never empty unless the name is.
pub proof fn stem_is_never_empty(name: Seq<u8>)
    requires
        name.len() > 0,
    ensures
        stem_bytes(name).len() > 0,
{
}

/// `b` with an ASCII small letter turned into its capital.
pub open spec fn ascii_upper(b: u8) -> u8 {
    if 97 <= b && b <= 122 {
        (b - 32) as u8
    } else {
        b
    }
}

/// The bytes `s` with every ASCII small letter made a capital, as `str::to_ascii_uppercase` does.
pub open spec fn upper_bytes(s: Seq<u8>) -> Seq<u8> {
    s.map_values(|b: u8| ascii_upper(b))
}

/// The bytes `s` with every ASCII capital made a small letter, as `str::to_ascii_lowercase` does.
pub open spec fn lower_bytes(s: Seq<u8>) -> Seq<u8> {
    s.map_values(|b: u8| ascii_lower(b))
}

/// Two names that every ending fits alike have the same ending, so the same format and stem cut.
proof fn lemma_same_fits(a: Seq<u8>, b: Seq<u8>)
    requires
        forall|i: int| ending_fits(a, i) == ending_fits(b, i),
    ensures
        ending_index(a) == ending_index(b),
        archive_format(a) == archive_format(b),
{
    assert forall|i: int| is_longest_ending(a, i) == is_longest_ending(b, i) by {
        if is_longest_ending(a, i) {
            assert forall|j: int| #[trigger] ending_fits(b, j) implies ending_spec(j).0.len() < ending_spec(i).0.len()
                || (ending_spec(j).0.len() == ending_spec(i).0.len() && j <= i) by {
                assert(ending_fits(a, j));
            }
        }
        if is_longest_ending(b, i) {
            assert forall|j: int| #[trigger] ending_fits(a, j) implies ending_spec(j).0.len() < ending_spec(i).0.len()
                || (ending_spec(j).0.len() == ending_spec(i).0.len() && j <= i) by {
                assert(ending_fits(b, j));
            }
        }
    }
    if exists|i: int| is_longest_ending(a, i) {
        let ca = choose|i: int| is_longest_ending(a, i);
        assert(is_longest_ending(b, ca));
        let cb = choose|i: int| is_longest_ending(b, i);
        assert(is_longest_ending(a, cb));
        lemma_longest_unique(a, ca, cb);
    } else {
        assert(!exists|i: int| is_longest_ending(b, i));
    }
}

/// Two names of one length whose bytes are alike, the dots where they are and the letters ignoring
/// case, are fitted alike by every ending shorter than they are.
proof fn lemma_alike(a: Seq<u8>, b: Seq<u8>)
    requires
        a.len() == b.len(),
        forall|k: int| 0 <= k < a.len() ==> (a[k] == 46u8 <==> b[k] == 46u8),
        forall|k: int| 0 <= k < a.len() ==> ascii_lower(#[trigger] a[k]) == ascii_lower(b[k]),
    ensures
        forall|i: int| 0 <= i < ENDING_COUNT && a.len() - ending_spec(i).0.len() - 1 >= 0 ==> ending_fits(a, i)
            == ending_fits(b, i),
{
    assert forall|i: int| 0 <= i < ENDING_COUNT && a.len() - ending_spec(i).0.len() - 1 >= 0 implies ending_fits(a, i)
        == ending_fits(b, i) by {
        let e = ending_spec(i).0;
        let at = a.len() - e.len();
        if has_ending(a, e) {
            assert forall|k: int| 0 <= k < e.len() implies ascii_lower(#[trigger] b[b.len() - e.len() + k]) == ascii_lower(
                e[k],
            ) by {
                assert(ascii_lower(a[a.len() - e.len() + k]) == ascii_lower(e[k]));
            }
        }
        if has_ending(b, e) {
            assert forall|k: int| 0 <= k < e.len() implies ascii_lower(#[trigger] a[a.len() - e.len() + k]) == ascii_lower(
                e[k],
            ) by {
                assert(ascii_lower(b[b.len() - e.len() + k]) == ascii_lower(e[k]));
            }
        }
    }
}

/// Whether a name is an archive, and which, does not depend on the case of its ASCII letters.
pub proof fn format_ignores_ascii_case(name: Seq<u8>)
    ensures
        archive_format(upper_bytes(name)) == archive_format(name),
        archive_format(lower_bytes(name)) == archive_format(name),
{
    let up = upper_bytes(name);
    let low = lower_bytes(name);
    assert forall|k: int| 0 <= k < name.len() implies (up[k] == 46u8 <==> name[k] == 46u8) && ascii_lower(
        #[trigger] up[k],
    ) == ascii_lower(name[k]) && (low[k] == 46u8 <==> name[k] == 46u8) && ascii_lower(low[k]) == ascii_lower(
        name[k],
    ) by {
        assert(up[k] == ascii_upper(name[k]));
        assert(low[k] == ascii_lower(name[k]));
    }
    lemma_alike(up, name);
    lemma_alike(low, name);
    assert forall|i: int| ending_fits(up, i) == ending_fits(name, i) && ending_fits(low, i) == ending_fits(name, i) by {
        if 0 <= i < ENDING_COUNT && name.len() - ending_spec(i).0.len() - 1 < 0 {
            assert(!has_ending(name, ending_spec(i).0));
        }
    }
    lemma_same_fits(up, name);
    lemma_same_fits(low, name);
}

/// Whether a name is an archive, and which, depends on its last twelve bytes alone: the longest
/// ending with its dot, `.pkg.tar.zst`, is twelve long. Whatever comes before a name of at least
/// twelve bytes changes nothing.
pub proof fn format_reads_only_the_end(before: Seq<u8>, name: Seq<u8>)
    requires
        name.len() >= 12,
    ensures
        archive_format(before + name) == archive_format(name),
{
    let whole = before + name;
    let front = before.len() as int;
    assert forall|i: int| ending_fits(whole, i) == ending_fits(name, i) by {
        if 0 <= i < ENDING_COUNT {
            lemma_ending_short(i);
            let e = ending_spec(i).0;
            let at = name.len() - e.len();
            assert(whole[front + at - 1] == name[at - 1]);
            if has_ending(name, e) {
                assert forall|k: int| 0 <= k < e.len() implies ascii_lower(#[trigger] whole[whole.len() - e.len() + k])
                    == ascii_lower(e[k]) by {
                    assert(whole[whole.len() - e.len() + k] == name[name.len() - e.len() + k]);
                }
            }
            if has_ending(whole, e) {
                assert forall|k: int| 0 <= k < e.len() implies ascii_lower(#[trigger] name[name.len() - e.len() + k])
                    == ascii_lower(e[k]) by {
                    assert(whole[whole.len() - e.len() + k] == name[name.len() - e.len() + k]);
                }
            }
        }
    }
    lemma_same_fits(whole, name);
}

} // verus!
