//! Reading a zip's own directory for the flag that says an entry is protected with a password.
//!
//! A tool's own words are not enough to tell. Zip's old encryption checks a password against a
//! single byte, so one wrong password in 256 passes the check, and the tool then fails to
//! decompress and says nothing of a password. The flag is what the archive itself says, the same
//! on every run. Only the plain end record is read; a zip64 archive, whose record points
//! elsewhere, and anything that does not read as a zip count as not encrypted.

use vstd::prelude::*;

verus! {

/// The end record is 22 bytes, followed by a comment of at most 64 KiB: the end of a zip this long
/// holds it.
pub const TAIL: u64 = 22 + 0xFFFF;

/// The largest central directory read: a few hundred bytes an entry, so tens of thousands of
/// entries fit.
pub const LARGEST_DIRECTORY: u64 = 16 << 20;

/// The number little-endian in the two bytes of `b` at `at`.
pub open spec fn le16(b: Seq<u8>, at: int) -> nat {
    (b[at] + 256 * b[at + 1]) as nat
}

/// The number little-endian in the four bytes of `b` at `at`.
pub open spec fn le32(b: Seq<u8>, at: int) -> nat {
    le16(b, at) + 65536 * le16(b, at + 2)
}

/// Whether the end record's signature `PK\x05\x06` starts at `i` in `b`.
pub open spec fn end_signature_at(b: Seq<u8>, i: int) -> bool {
    0 <= i && i + 4 <= b.len() && b[i] == 0x50 && b[i + 1] == 0x4B && b[i + 2] == 5 && b[i + 3] == 6
}

/// Whether `i` is the last place the end record's signature starts in `b`.
pub open spec fn last_end_signature(b: Seq<u8>, i: int) -> bool {
    end_signature_at(b, i) && forall|j: int| i < j ==> !end_signature_at(b, j)
}

/// Where the central directory is and how long it is, from the end `tail` of a zip `len` bytes
/// long: the last end record found there, when it is whole, names a directory that fits in the
/// file and is not too large to read.
pub open spec fn directory_span_of(tail: Seq<u8>, len: nat) -> Option<(nat, nat)> {
    if exists|i: int| last_end_signature(tail, i) {
        let i = choose|i: int| last_end_signature(tail, i);
        if i + 22 <= tail.len() {
            let size = le32(tail, i + 12);
            let offset = le32(tail, i + 16);
            if offset == 0xFFFF_FFFF || size > LARGEST_DIRECTORY || offset + size > len {
                None
            } else {
                Some((offset, size))
            }
        } else {
            None
        }
    } else {
        None
    }
}

/// Whether an entry of the central directory `dir`, from the one at `at` on, has the flag that
/// says it is protected with a password (bit 0 of its flags). The entries follow one another, each
/// 46 bytes and its name, extra field and comment, and end where one does not start with
/// `PK\x01\x02`.
pub open spec fn flags_encrypted(dir: Seq<u8>, at: int) -> bool
    decreases dir.len() - at,
{
    if 0 <= at && at + 46 <= dir.len() && dir[at] == 0x50 && dir[at + 1] == 0x4B && dir[at + 2] == 1 && dir[at + 3]
        == 2 {
        if le16(dir, at + 8) % 2 == 1 {
            true
        } else {
            let next = at + 46 + le16(dir, at + 28) + le16(dir, at + 30) + le16(dir, at + 32);
            if next <= dir.len() {
                flags_encrypted(dir, next)
            } else {
                false
            }
        }
    } else {
        false
    }
}

/// How many bytes from its end a zip of `len` bytes is read for its end record.
pub fn tail_len(len: u64) -> (r: u64)
    ensures
        r == if len < TAIL { len } else { TAIL },
{
    if len < TAIL {
        len
    } else {
        TAIL
    }
}

fn half(b: &[u8], at: usize) -> (r: u64)
    requires
        at + 2 <= b@.len(),
    ensures
        r == le16(b@, at as int),
        r < 65536,
{
    b[at] as u64 + 256 * (b[at + 1] as u64)
}

fn word(b: &[u8], at: usize) -> (r: u64)
    requires
        at + 4 <= b@.len(),
    ensures
        r == le32(b@, at as int),
{
    let n = b.len();
    assert(at + 2 < n);
    let low = half(b, at);
    let high = half(b, at + 2);
    assert(65536 * high <= 65536 * 65535) by (nonlinear_arith)
        requires
            high < 65536,
    ;
    low + 65536 * high
}

/// Where the central directory of a zip `len` bytes long is (its offset, then its size), from the
/// last bytes `tail` of the file; `None` when no usable end record is there.
pub fn directory_span(tail: &[u8], len: u64) -> (r: Option<(u64, u64)>)
    ensures
        r matches Some((offset, size)) ==> directory_span_of(tail@, len as nat) == Some((offset as nat, size as nat)),
        r is None ==> directory_span_of(tail@, len as nat) is None,
{
    if tail.len() < 4 {
        assert(!exists|i: int| last_end_signature(tail@, i));
        return None;
    }
    let mut i = tail.len() - 4;
    loop
        invariant
            i + 4 <= tail@.len(),
            forall|j: int| i < j ==> !end_signature_at(tail@, j),
        ensures
            i + 4 <= tail@.len(),
            end_signature_at(tail@, i as int),
            forall|j: int| i < j ==> !end_signature_at(tail@, j),
        decreases i,
    {
        if tail[i] == 0x50 && tail[i + 1] == 0x4B && tail[i + 2] == 5 && tail[i + 3] == 6 {
            break;
        }
        if i == 0 {
            assert(!exists|k: int| last_end_signature(tail@, k)) by {
                assert forall|k: int| !last_end_signature(tail@, k) by {
                    if k >= 0 {
                        assert(!end_signature_at(tail@, k));
                    }
                }
            }
            return None;
        }
        i -= 1;
    }
    assert(last_end_signature(tail@, i as int));
    assert((choose|k: int| last_end_signature(tail@, k)) == i as int) by {
        let k = choose|k: int| last_end_signature(tail@, k);
        if k < i {
            assert(end_signature_at(tail@, i as int));
        }
        if k > i {
            assert(!end_signature_at(tail@, k));
        }
    }
    if tail.len() - i < 22 {
        return None;
    }
    let size = word(tail, i + 12);
    let offset = word(tail, i + 16);
    if offset == 0xFFFF_FFFF || size > LARGEST_DIRECTORY || offset + size > len {
        return None;
    }
    Some((offset, size))
}

/// Whether an entry of the central directory `dir` says it is protected with a password.
pub fn directory_encrypted(dir: &[u8]) -> (r: bool)
    ensures
        r == flags_encrypted(dir@, 0),
{
    let mut at: usize = 0;
    loop
        invariant
            at <= dir@.len(),
            flags_encrypted(dir@, 0) == flags_encrypted(dir@, at as int),
        decreases dir@.len() - at,
    {
        if dir.len() - at < 46 || !(dir[at] == 0x50 && dir[at + 1] == 0x4B && dir[at + 2] == 1 && dir[at + 3] == 2) {
            return false;
        }
        if half(dir, at + 8) % 2 == 1 {
            return true;
        }
        let step = 46 + half(dir, at + 28) + half(dir, at + 30) + half(dir, at + 32);
        if step > (dir.len() - at) as u64 {
            return false;
        }
        at = at + step as usize;
    }
}

/// Whether a central directory entry starts at `at` in `dir`: its signature `PK\x01\x02` and its
/// 46 bytes are there.
pub open spec fn entry_at(dir: Seq<u8>, at: int) -> bool {
    0 <= at && at + 46 <= dir.len() && dir[at] == 0x50 && dir[at + 1] == 0x4B && dir[at + 2] == 1 && dir[at + 3] == 2
}

/// How long the entry at `at` is: its 46 bytes, then its name, its extra field and its comment,
/// whose lengths stand at 28, 30 and 32.
pub open spec fn entry_len(dir: Seq<u8>, at: int) -> int {
    46 + dir[at + 28] + 256 * dir[at + 29] + dir[at + 30] + 256 * dir[at + 31] + dir[at + 32] + 256 * dir[at + 33]
}

/// Whether `dir` is made of the entries starting at `starts`, one after another from its first
/// byte to its last.
pub open spec fn made_of(dir: Seq<u8>, starts: Seq<int>) -> bool {
    &&& starts.len() > 0
    &&& starts[0] == 0
    &&& forall|k: int| 0 <= k < starts.len() ==> #[trigger] entry_at(dir, starts[k])
    &&& forall|k: int| 0 <= k < starts.len() - 1 ==> starts[k + 1] == starts[k] + #[trigger] entry_len(dir, starts[k])
    &&& starts.last() + entry_len(dir, starts.last()) == dir.len()
}

/// Whether the entry at `at` says it is protected with a password: bit 0 of its flags.
pub open spec fn entry_encrypted(dir: Seq<u8>, at: int) -> bool {
    dir[at + 8] % 2 == 1
}

proof fn lemma_flags_from(dir: Seq<u8>, starts: Seq<int>, k: int)
    requires
        made_of(dir, starts),
        0 <= k < starts.len(),
    ensures
        flags_encrypted(dir, starts[k]) <==> exists|j: int| k <= j < starts.len() && #[trigger] entry_encrypted(dir, starts[j]),
    decreases starts.len() - k,
{
    let at = starts[k];
    assert(entry_at(dir, at));
    let next = at + 46 + le16(dir, at + 28) + le16(dir, at + 30) + le16(dir, at + 32);
    assert(next == at + entry_len(dir, at));
    assert(le16(dir, at + 8) % 2 == 1 <==> entry_encrypted(dir, at)) by {
        assert((dir[at + 8] + 256 * dir[at + 9]) % 2 == dir[at + 8] % 2) by (nonlinear_arith);
    }
    if k + 1 < starts.len() {
        assert(starts[k + 1] == next);
        lemma_flags_from(dir, starts, k + 1);
        if exists|j: int| k <= j < starts.len() && #[trigger] entry_encrypted(dir, starts[j]) {
            let j = choose|j: int| k <= j < starts.len() && #[trigger] entry_encrypted(dir, starts[j]);
            if j > k {
                assert(k + 1 <= j < starts.len() && entry_encrypted(dir, starts[j]));
            }
        }
        if exists|j: int| k + 1 <= j < starts.len() && #[trigger] entry_encrypted(dir, starts[j]) {
            let j = choose|j: int| k + 1 <= j < starts.len() && #[trigger] entry_encrypted(dir, starts[j]);
            assert(k <= j < starts.len() && entry_encrypted(dir, starts[j]));
        }
    } else {
        assert(next == dir.len());
        assert(!(next + 46 <= dir.len()));
        assert(flags_encrypted(dir, next) == false);
        if exists|j: int| k <= j < starts.len() && #[trigger] entry_encrypted(dir, starts[j]) {
            let j = choose|j: int| k <= j < starts.len() && #[trigger] entry_encrypted(dir, starts[j]);
            assert(j == k);
        }
    }
}

/// A directory made of whole entries, one after another, is encrypted exactly when one of its
/// entries is flagged, whatever the lengths of their names, extra fields and comments.
pub proof fn encrypted_when_an_entry_is_flagged(dir: Seq<u8>, starts: Seq<int>)
    requires
        made_of(dir, starts),
    ensures
        flags_encrypted(dir, 0) <==> exists|j: int| 0 <= j < starts.len() && #[trigger] entry_encrypted(dir, starts[j]),
{
    lemma_flags_from(dir, starts, 0);
}

} // verus!
