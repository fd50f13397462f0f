//! "Set as wallpaper" on a picture's menu, when qdesk is installed: which files are pictures
//! qdesk can lay over its floor, and what `qdesk wallpaper <picture>` came to.

use vstd::prelude::*;
use vstd::string::StrSliceExecFns;

use crate::text::{chars_of, last_char_before, last_index, last_line_of, last_line_skipping};

verus! {

/// What `qdesk wallpaper` came to. The words are put together on the screen's side, in its
/// language; this only says what happened.
#[derive(Debug, Clone, PartialEq, Eq)]
pub enum Outcome {
    /// It exited 0: the picture is the wallpaper.
    Done,
    /// It refused or failed with this last line of complaint.
    Said(String),
    /// It failed without a word, ending with this status.
    Ended(i32),
    /// It could not be started or looked at: the system's reason, or a signal it was ended by.
    Error(String),
    /// It did not answer within thirty seconds and was stopped.
    Stopped,
}

/// How long qdesk is given, in seconds, before it is stopped.
pub const BOUND_SECONDS: u64 = 30;

/// `c` with an ASCII capital turned into its small letter.
pub open spec fn lower_char(c: char) -> char {
    if 'A' <= c && c <= 'Z' {
        ((c as u32) + 32) as char
    } else {
        c
    }
}

/// Whether `ext` is `known`, written in small letters, ignoring ASCII case.
pub open spec fn same_ignoring_case(ext: Seq<char>, known: Seq<char>) -> bool {
    ext.len() == known.len() && forall|i: int| 0 <= i < ext.len() ==> lower_char(ext[i]) == known[i]
}

/// Whether `name` is the name of a picture qdesk draws: a name before its last dot, and after it
/// `png`, `jpg`, `jpeg`, `gif` or `webp` in any case.
pub open spec fn is_picture_name(name: Seq<char>) -> bool {
    match last_index(name, '.') {
        Some(dot) => {
            let ext = name.subrange(dot + 1, name.len() as int);
            &&& dot > 0
            &&& {
                ||| same_ignoring_case(ext, "png"@)
                ||| same_ignoring_case(ext, "jpg"@)
                ||| same_ignoring_case(ext, "jpeg"@)
                ||| same_ignoring_case(ext, "gif"@)
                ||| same_ignoring_case(ext, "webp"@)
            }
        },
        None => false,
    }
}

fn lowers_to(c: char, small: char) -> (r: bool)
    ensures
        r == (lower_char(c) == small),
{
    if 'A' <= c && c <= 'Z' {
        (c as u32) + 32 == small as u32
    } else {
        c == small
    }
}

fn ends_as(c: &Vec<char>, from: usize, known: &str) -> (r: bool)
    requires
        from <= c@.len(),
    ensures
        r == same_ignoring_case(c@.subrange(from as int, c@.len() as int), known@),
{
    let k = chars_of(known);
    if c.len() - from != k.len() {
        return false;
    }
    let mut i: usize = 0;
    while i < k.len()
        invariant
            from + k@.len() == c@.len(),
            c@.len() <= usize::MAX,
            k@ == known@,
            i <= k@.len(),
            forall|m: int| 0 <= m < i ==> lower_char(c@[from + m]) == k@[m],
        decreases k@.len() - i,
    {
        if !lowers_to(c[from + i], k[i]) {
            assert(c@.subrange(from as int, c@.len() as int)[i as int] == c@[from + i]);
            return false;
        }
        i += 1;
    }
    true
}

/// Whether `name` is the name of a picture qdesk can lay over its floor: PNG, JPEG, GIF or WebP,
/// known by the name's ending in any case.
pub fn is_picture(name: &str) -> (r: bool)
    ensures
        r == is_picture_name(name@),
{
    let c = chars_of(name);
    assert(c@.subrange(0, c@.len() as int) =~= name@);
    match last_char_before(&c, '.', c.len()) {
        Some(dot) => {
            dot > 0 && (ends_as(&c, dot + 1, "png") || ends_as(&c, dot + 1, "jpg") || ends_as(&c, dot + 1, "jpeg")
                || ends_as(&c, dot + 1, "gif") || ends_as(&c, dot + 1, "webp"))
        },
        None => false,
    }
}

/// The last line of `text` that says something, trimmed.
pub fn last_line(text: &str) -> (r: Option<String>)
    ensures
        r matches Some(line) ==> last_line_of(text@, None) == Some(line@),
        r is None ==> last_line_of(text@, None) is None,
{
    last_line_skipping(text, None)
}

/// What `qdesk wallpaper` came to once it ended: set when it succeeded; else its last line of
/// complaint on its error output `said`, or, without one, the status `code` it ended with, or, when
/// it was ended by a signal, the way it ended in words (`status`).
pub fn outcome(success: bool, said: &str, code: Option<i32>, status: String) -> (r: Outcome)
    ensures
        success ==> r == Outcome::Done,
        !success ==> match last_line_of(said@, None) {
            Some(line) => r matches Outcome::Said(l) && l@ == line,
            None => match code {
                Some(c) => r == Outcome::Ended(c),
                None => r == Outcome::Error(status),
            },
        },
{
    if success {
        return Outcome::Done;
    }
    match (last_line(said), code) {
        (Some(line), _) => Outcome::Said(line),
        (None, Some(c)) => Outcome::Ended(c),
        (None, None) => Outcome::Error(status),
    }
}

/// How long, in milliseconds, the task waits between looks at qdesk.
pub const LOOK_MILLIS: u64 = 50;

/// Whether qdesk, waited for `waited_millis` milliseconds, has had its time and is stopped rather
/// than waited for again.
pub fn stop_waiting(waited_millis: u64) -> (r: bool)
    ensures
        r == (waited_millis >= BOUND_SECONDS * 1000),
{
    waited_millis >= BOUND_SECONDS * 1000
}

/// How long qdesk has been waited for after one more look, having been waited for `waited_millis`
/// milliseconds; the count stays at its largest rather than going round.
pub fn after_look(waited_millis: u64) -> (r: u64)
    ensures
        r == if waited_millis + LOOK_MILLIS <= u64::MAX {
            waited_millis + LOOK_MILLIS
        } else {
            u64::MAX as int
        },
        waited_millis < BOUND_SECONDS * 1000 ==> r > waited_millis,
{
    waited_millis.saturating_add(LOOK_MILLIS)
}

} // verus!
