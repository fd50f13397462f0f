//! Archives: which files are archives, which installed tool unpacks them, and what an
//! extraction that did not succeed comes to.

pub mod names;
pub mod tools;
pub mod zip;

use vstd::prelude::*;
use vstd::string::{StringExecFns, StringSliceAdditionalSpecFns};

pub use names::{format_of, numbered, stem};
pub use tools::{Missing, Output, Plan, Probe, Tool, plan, probes};

use crate::text::{
    bytes_of, chars_of, contains, contains_in, decimal, is_last_worth_showing, last_line_is_the_last_worth_showing, last_line_of,
    last_line_skipping, push_decimal, push_range, split, trim, worth_showing,
};

verus! {

/// The kinds of archive, by what reads them.
#[derive(Debug, Clone, Copy, PartialEq, Eq, Structural)]
pub enum Format {
    /// A zip file, and the formats built on it: `jar`, `apk`, `cbz`, `war`, `ear`, `xpi`.
    Zip,
    /// A tar file, bare or compressed.
    Tar,
    /// A 7-Zip archive.
    SevenZip,
    /// A RAR archive, and a comic book in one (`cbr`).
    Rar,
    /// A disk image or a package (`iso`, `cpio`, `deb`, `rpm`), which only `bsdtar` reads.
    Disk,
    /// A single compressed file, which unpacks to one file rather than a folder.
    Single(Compressor),
}

/// The compressors a lone compressed file may have gone through.
#[derive(Debug, Clone, Copy, PartialEq, Eq, Structural)]
pub enum Compressor {
    /// `.gz`
    Gzip,
    /// `.bz2`
    Bzip2,
    /// `.xz`
    Xz,
    /// `.zst`
    Zstd,
    /// `.lz4`
    Lz4,
    /// `.lzma`, the format xz grew out of.
    Lzma,
    /// `.lz`
    Lzip,
}

/// Why an archive was not unpacked. Whatever the reason, nothing was left behind.
#[derive(Debug, Clone, PartialEq, Eq)]
pub enum ExtractError {
    /// The file's name is not one an archive has.
    NotAnArchive,
    /// No installed tool unpacks it.
    Missing(Missing),
    /// It is protected with a password, which is not asked for.
    Encrypted,
    /// The tool failed, or the file system did: the tool's last line of complaint, or the error.
    Failed(String),
    /// The caller asked to stop, and the tool was stopped.
    Cancelled,
}

/// The closing line `bsdtar` adds after every error, which says only that there was one.
pub const DELAYED: &'static str = "Error exit delayed from previous errors";

/// The words that say a tool wanted a password.
pub open spec fn asks_for_password(lower: Seq<char>) -> bool {
    ||| contains(lower, "password"@)
    ||| contains(lower, "passphrase"@)
    ||| contains(lower, "encrypted"@)
}

/// Text with every letter in its small form, as Unicode defines it (the `Lowercase` property).
pub uninterp spec fn lowercase(s: Seq<char>) -> Seq<char>;

/// `str::to_lowercase`: the text with every letter in its small form. Its result is a function of
/// the text alone; nothing more is claimed of it here.
#[verifier::external_body]
fn to_lowercase(s: &str) -> (r: String)
    ensures
        r@ == lowercase(s@),
{
    s.to_lowercase()
}

/// The last line of a tool's complaint worth showing, skipping the closing line `bsdtar` adds
/// after every error.
pub fn last_line(text: &str) -> (r: Option<String>)
    ensures
        r matches Some(line) ==> last_line_of(text@, Some(DELAYED@)) == Some(line@),
        r is None ==> last_line_of(text@, Some(DELAYED@)) is None,
{
    last_line_skipping(text, Some(DELAYED))
}

/// What a tool said, as the error that counts: its last line of complaint, on its error output
/// first, or else the way it ended.
pub open spec fn complaint(said_err: Seq<char>, said_out: Seq<char>, status: Seq<char>) -> Seq<char> {
    match last_line_of(said_err, Some(DELAYED@)) {
        Some(line) => line,
        None => match last_line_of(said_out, Some(DELAYED@)) {
            Some(line) => line,
            None => status,
        },
    }
}

/// What a tool that did not succeed came to, from `lower`, what it said on its error output and
/// then on its output with every letter in its small form, what it said on its error output
/// `said_err` and its output `said_out` as it said it, whether the archive is a zip whose own
/// directory says an entry is protected with a password, and the way it ended in words.
///
/// Its words about a password come first: a tool can fail on an encrypted zip without a word
/// about one, which is why the zip's own flag counts too. Otherwise its last line of complaint,
/// on its error output first, or else the way it ended.
pub fn judged(lower: &str, said_err: &str, said_out: &str, zip_flagged: bool, status: &str) -> (r: ExtractError)
    ensures
        asks_for_password(lower@) || zip_flagged ==> r == ExtractError::Encrypted,
        !(asks_for_password(lower@) || zip_flagged) ==> (r matches ExtractError::Failed(text) && text@
            == complaint(said_err@, said_out@, status@)),
{
    let c = chars_of(lower);
    let n = c.len();
    assert(c@.subrange(0, n as int) =~= c@);
    let said_so = contains_in(&c, 0, n, &chars_of("password")) || contains_in(&c, 0, n, &chars_of("passphrase"))
        || contains_in(&c, 0, n, &chars_of("encrypted"));
    if said_so || zip_flagged {
        return ExtractError::Encrypted;
    }
    let said = match last_line(said_err) {
        Some(line) => line,
        None => match last_line(said_out) {
            Some(line) => line,
            None => status.to_owned(),
        },
    };
    ExtractError::Failed(said)
}

/// What a tool that did not succeed came to, from what it said on its error output `said_err`
/// and its output `said_out`, whether the archive is a zip whose own directory says an entry is
/// protected with a password, and the way it ended in words: [`judged`] on what it said with
/// every letter in its small form.
pub fn failure(said_err: &str, said_out: &str, zip_flagged: bool, status: &str) -> (r: ExtractError)
    ensures
        asks_for_password(lowercase(said_err@) + lowercase(said_out@)) || zip_flagged ==> r
            == ExtractError::Encrypted,
        !(asks_for_password(lowercase(said_err@) + lowercase(said_out@)) || zip_flagged) ==> (r matches ExtractError::Failed(
            text,
        ) && text@ == complaint(said_err@, said_out@, status@)),
{
    let mut lower = to_lowercase(said_err);
    let out_lower = to_lowercase(said_out);
    lower.append(out_lower.as_str());
    judged(lower.as_str(), said_err, said_out, zip_flagged, status)
}

/// The longest part of the stem a temporary folder's name carries: enough to tell which archive it
/// belongs to, short enough that the whole name stays within a file system's limit.
pub const TEMP_STEM: usize = 64;

/// Whether `cut` is where the stem a temporary folder's name carries ends: the last place between
/// characters no further than [`TEMP_STEM`] bytes in.
pub open spec fn is_temp_cut(stem: Seq<u8>, cut: int) -> bool {
    let most = if stem.len() < TEMP_STEM { stem.len() as int } else { TEMP_STEM as int };
    &&& 0 <= cut <= most
    &&& vstd::utf8::is_char_boundary(stem, cut)
    &&& forall|d: int| cut < d <= most ==> !vstd::utf8::is_char_boundary(stem, d)
}

/// The name of the temporary folder `n` of the process `process` for an archive whose stem is
/// `stem` cut at `cut`: `.<stem>.qexp-<process>-<n>`, hidden.
pub open spec fn temp_name_at(stem: Seq<u8>, cut: int, process: nat, n: nat) -> Seq<u8> {
    seq![46u8] + stem.subrange(0, cut) + ".qexp-".spec_bytes() + decimal(process) + seq![45u8] + decimal(n)
}

/// The name of a new hidden folder a tool unpacks into: `.<stem>.qexp-<process>-<n>`, with at most
/// [`TEMP_STEM`] bytes of the stem, cut between characters. It goes in the same folder as the
/// result, so moving it there is a rename on one file system rather than a copy.
pub fn temp_name(stem: &str, process: u32, n: usize) -> (r: Vec<u8>)
    ensures
        exists|cut: int| is_temp_cut(stem.spec_bytes(), cut) && r@ == temp_name_at(stem.spec_bytes(), cut, process as nat, n as nat),
{
    let bytes = stem.as_bytes();
    let mut cut = if bytes.len() < TEMP_STEM { bytes.len() } else { TEMP_STEM };
    let ghost most = cut as int;
    proof {
        vstd::utf8::encode_utf8_valid_utf8(stem@);
        vstd::utf8::is_char_boundary_start_end_of_seq(stem.spec_bytes());
    }
    while !stem.is_char_boundary(cut)
        invariant
            cut <= most,
            most == if bytes@.len() < TEMP_STEM { bytes@.len() as int } else { TEMP_STEM as int },
            bytes@ == stem.spec_bytes(),
            vstd::utf8::is_char_boundary(stem.spec_bytes(), 0),
            forall|d: int| cut < d <= most ==> !vstd::utf8::is_char_boundary(stem.spec_bytes(), d),
        decreases cut,
    {
        cut -= 1;
    }
    let mut out: Vec<u8> = Vec::new();
    out.push(46u8);
    push_range(&mut out, bytes, 0, cut);
    let middle = bytes_of(".qexp-");
    push_range(&mut out, &middle, 0, middle.len());
    push_decimal(&mut out, process as u64);
    out.push(45u8);
    push_decimal(&mut out, n as u64);
    proof {
        assert(middle@.subrange(0, middle@.len() as int) =~= middle@);
        assert(is_temp_cut(stem.spec_bytes(), cut as int));
        assert(out@ =~= temp_name_at(stem.spec_bytes(), cut as int, process as nat, n as nat));
    }
    out
}

/// What trying to claim a name came to.
#[derive(Debug, Clone, Copy, PartialEq, Eq, Structural)]
pub enum Claim {
    /// Nothing had the name, and it is now the result's.
    Free,
    /// Something already has the name.
    Taken,
    /// The name could not be tried, for another reason.
    Refused,
}

/// What follows a try of a name.
#[derive(Debug, Clone, Copy, PartialEq, Eq, Structural)]
pub enum Next {
    /// The name tried is the one.
    Done,
    /// Try the name with this number, the next one.
    Try(usize),
    /// Give up, with the reason the name could not be tried.
    Fail,
}

/// What follows the try of the `n`th choice of name ([`numbered`]) that came to `claim`: a free
/// name is the one, a taken one is followed by the next number, and anything else ends the search.
pub fn after_claim(n: usize, claim: Claim) -> (r: Next)
    requires
        n < usize::MAX,
    ensures
        r == match claim {
            Claim::Free => Next::Done,
            Claim::Taken => Next::Try((n + 1) as usize),
            Claim::Refused => Next::Fail,
        },
{
    match claim {
        Claim::Free => Next::Done,
        Claim::Taken => Next::Try(n + 1),
        Claim::Refused => Next::Fail,
    }
}

/// Of the lines of `text` (the pieces between `\n`), the one worth showing that no other line worth
/// showing follows is unique.
proof fn lemma_one_last(lines: Seq<Seq<char>>, skip: Option<Seq<char>>, i: int, k: int)
    requires
        is_last_worth_showing(lines, skip, i),
        is_last_worth_showing(lines, skip, k),
    ensures
        i == k,
{
    if i < k {
        assert(!worth_showing(lines[k], skip));
    } else if k < i {
        assert(!worth_showing(lines[i], skip));
    }
}

/// What a tool that failed said is read from its error output first: the last line there worth
/// showing (trimmed, `bsdtar`'s closing line passed over), whatever its output holds; its output
/// only when no line of the error output is worth showing; and the way it ended only when neither
/// has such a line.
pub proof fn the_error_output_speaks_first(said_err: Seq<char>, said_out: Seq<char>, status: Seq<char>)
    ensures
        forall|i: int| #[trigger] is_last_worth_showing(split(said_err, '\n'), Some(DELAYED@), i) ==> complaint(
            said_err,
            said_out,
            status,
        ) == trim(split(said_err, '\n')[i]),
        (forall|i: int| 0 <= i < split(said_err, '\n').len() ==> !worth_showing(#[trigger] split(said_err, '\n')[i], Some(DELAYED@)))
            ==> forall|i: int| #[trigger] is_last_worth_showing(split(said_out, '\n'), Some(DELAYED@), i) ==> complaint(
            said_err,
            said_out,
            status,
        ) == trim(split(said_out, '\n')[i]),
        (forall|i: int| 0 <= i < split(said_err, '\n').len() ==> !worth_showing(#[trigger] split(said_err, '\n')[i], Some(DELAYED@)))
            && (forall|i: int| 0 <= i < split(said_out, '\n').len() ==> !worth_showing(#[trigger] split(said_out, '\n')[i], Some(DELAYED@)))
            ==> complaint(said_err, said_out, status) == status,
{
    let skip = Some(DELAYED@);
    let err = split(said_err, '\n');
    let out = split(said_out, '\n');
    last_line_is_the_last_worth_showing(said_err, skip);
    last_line_is_the_last_worth_showing(said_out, skip);
    assert forall|i: int| #[trigger] is_last_worth_showing(err, skip, i) implies complaint(said_err, said_out, status)
        == trim(err[i]) by {
        match last_line_of(said_err, skip) {
            Some(l) => {
                let k = choose|k: int| #[trigger] is_last_worth_showing(err, skip, k) && l == trim(err[k]);
                lemma_one_last(err, skip, i, k);
            },
            None => {
                assert(!worth_showing(err[i], skip));
            },
        }
    }
    if forall|i: int| 0 <= i < err.len() ==> !worth_showing(#[trigger] err[i], skip) {
        match last_line_of(said_err, skip) {
            Some(l) => {
                let k = choose|k: int| #[trigger] is_last_worth_showing(err, skip, k) && l == trim(err[k]);
                assert(worth_showing(err[k], skip));
            },
            None => {},
        }
        assert forall|i: int| #[trigger] is_last_worth_showing(out, skip, i) implies complaint(said_err, said_out, status)
            == trim(out[i]) by {
            match last_line_of(said_out, skip) {
                Some(l) => {
                    let k = choose|k: int| #[trigger] is_last_worth_showing(out, skip, k) && l == trim(out[k]);
                    lemma_one_last(out, skip, i, k);
                },
                None => {
                    assert(!worth_showing(out[i], skip));
                },
            }
        }
        if forall|i: int| 0 <= i < out.len() ==> !worth_showing(#[trigger] out[i], skip) {
            match last_line_of(said_out, skip) {
                Some(l) => {
                    let k = choose|k: int| #[trigger] is_last_worth_showing(out, skip, k) && l == trim(out[k]);
                    assert(worth_showing(out[k], skip));
                },
                None => {},
            }
        }
    }
}

} // verus!
