//! Which program a file opens with when it is opened with Enter or a double click.
//!
//! The programs of a file's kind, the default among them and which can start here come from the
//! desktop's databases, read by the caller; what is decided here is the order they are tried in
//! and the terminal editor after them.

use vstd::prelude::*;
use vstd::string::StrSliceExecFns;

use crate::text::{chars_of, is_space, space};

verus! {

/// What opening a file comes to.
#[derive(Debug, Clone, Copy, PartialEq, Eq, Structural)]
pub enum Choice {
    /// The program of the kind at this place in the list of its programs.
    App(usize),
    /// The terminal editor, handed the terminal until it ends.
    Editor,
    /// Nothing opens the file here.
    Nothing,
}

/// Whether `i` is a program that can be started here and whose command line gives something for
/// the file.
pub open spec fn startable(usable: Seq<bool>, has_command: Seq<bool>, i: int) -> bool {
    0 <= i < usable.len() && i < has_command.len() && usable[i] && has_command[i]
}

/// Whether `i` is the first program that can be started.
pub open spec fn is_first_startable(usable: Seq<bool>, has_command: Seq<bool>, i: int) -> bool {
    startable(usable, has_command, i) && forall|j: int| 0 <= j < i ==> !startable(usable, has_command, j)
}

/// The program a file opens with: the kind's default when it can start, else the first of the
/// others in their order that can.
pub open spec fn chosen(default: Option<usize>, usable: Seq<bool>, has_command: Seq<bool>) -> Option<int> {
    match default {
        Some(d) if startable(usable, has_command, d as int) => Some(d as int),
        _ => if exists|i: int| is_first_startable(usable, has_command, i) {
            Some(choose|i: int| is_first_startable(usable, has_command, i))
        } else {
            None
        },
    }
}

/// How a file is opened, from its kind's programs: `default` is the place of the kind's default
/// program among them; `usable[i]` says whether program `i` can be started here (without a
/// graphical session, graphical programs are as good as not installed: starting one would only
/// fail out of sight); `has_command[i]` whether its command line gives something for the file.
/// With no program left, a text file (`is_text`) opens in the terminal editor when there is one
/// (`has_editor`).
pub fn decide(default: Option<usize>, usable: &[bool], has_command: &[bool], is_text: bool, has_editor: bool) -> (r: Choice)
    ensures
        chosen(default, usable@, has_command@) matches Some(i) ==> r == Choice::App(i as usize),
        chosen(default, usable@, has_command@) is None ==> r == if is_text && has_editor {
            Choice::Editor
        } else {
            Choice::Nothing
        },
{
    if let Some(d) = default {
        if d < usable.len() && d < has_command.len() && usable[d] && has_command[d] {
            return Choice::App(d);
        }
    }
    let mut i: usize = 0;
    while i < usable.len() && !(i < has_command.len() && usable[i] && has_command[i])
        invariant
            i <= usable@.len(),
            forall|j: int| 0 <= j < i ==> !startable(usable@, has_command@, j),
        decreases usable@.len() - i,
    {
        i += 1;
    }
    if i < usable.len() {
        assert(is_first_startable(usable@, has_command@, i as int));
        assert((choose|k: int| is_first_startable(usable@, has_command@, k)) == i as int) by {
            let k = choose|k: int| is_first_startable(usable@, has_command@, k);
            if k < i {
            } else if k > i {
                assert(startable(usable@, has_command@, i as int));
            }
        }
        return Choice::App(i);
    }
    assert(!exists|k: int| is_first_startable(usable@, has_command@, k)) by {
        assert forall|k: int| !is_first_startable(usable@, has_command@, k) by {
            if 0 <= k < usable@.len() {
                assert(!startable(usable@, has_command@, k));
            }
        }
    }
    if is_text && has_editor {
        Choice::Editor
    } else {
        Choice::Nothing
    }
}

/// The words of `s`: the runs of characters between white space, as Unicode counts it.
pub open spec fn words(s: Seq<char>) -> Seq<Seq<char>>
    decreases s.len(),
{
    if s.len() == 0 {
        Seq::empty()
    } else {
        let before = words(s.drop_last());
        let c = s.last();
        if is_space(c) {
            before
        } else if s.len() >= 2 && !is_space(s[s.len() - 2]) && before.len() > 0 {
            before.update(before.len() - 1, before.last().push(c))
        } else {
            before.push(seq![c])
        }
    }
}

/// What each string of `v` holds.
pub open spec fn texts(v: Seq<String>) -> Seq<Seq<char>> {
    Seq::new(v.len(), |i: int| v[i]@)
}

/// The words of `s`, each its own string.
pub fn split_words(s: &str) -> (r: Vec<String>)
    ensures
        texts(r@) == words(s@),
{
    let c = chars_of(s);
    let mut out: Vec<String> = Vec::new();
    let mut start: usize = 0;
    let mut in_word = false;
    let mut k: usize = 0;
    assert(s@.subrange(0, 0) =~= Seq::<char>::empty());
    while k < c.len()
        invariant
            c@ == s@,
            start <= k <= c@.len(),
            in_word ==> k > 0 && start < k && !is_space(c@[k - 1]) && words(c@.subrange(0, k as int)).len() > 0,
            in_word ==> texts(out@).push(c@.subrange(start as int, k as int)) == words(c@.subrange(0, k as int)),
            !in_word ==> texts(out@) == words(c@.subrange(0, k as int)),
            !in_word && k > 0 ==> is_space(c@[k - 1]),
        decreases c@.len() - k,
    {
        let ghost prefix = c@.subrange(0, k + 1);
        assert(prefix.drop_last() =~= c@.subrange(0, k as int));
        assert(prefix.last() == c@[k as int]);
        if space(c[k]) {
            if in_word {
                let ghost before = texts(out@);
                out.push(s.substring_char(start, k).to_owned());
                assert(texts(out@) =~= before.push(c@.subrange(start as int, k as int)));
                in_word = false;
            }
        } else {
            if !in_word {
                start = k;
                in_word = true;
                assert(c@.subrange(start as int, k + 1) =~= seq![c@[k as int]]);
            } else {
                let ghost w = words(c@.subrange(0, k as int));
                assert(prefix[prefix.len() - 2] == c@[k - 1]);
                assert(c@.subrange(start as int, k + 1) =~= c@.subrange(start as int, k as int).push(c@[k as int]));
                assert(texts(out@).push(c@.subrange(start as int, k + 1)) =~= w.update(
                    w.len() - 1,
                    w.last().push(c@[k as int]),
                ));
            }
        }
        k += 1;
    }
    assert(c@.subrange(0, k as int) =~= s@);
    if in_word {
        let ghost before = texts(out@);
        out.push(s.substring_char(start, k).to_owned());
        assert(texts(out@) =~= before.push(c@.subrange(start as int, k as int)));
    }
    out
}

/// The terminal editor's command: `$VISUAL`, then `$EDITOR`, then `less`, the first with a word
/// in it split into its words, so `nvim -p` is a program and its argument.
pub open spec fn editor_command(visual: Option<Seq<char>>, editor: Option<Seq<char>>) -> Seq<Seq<char>> {
    match visual {
        Some(v) if words(v).len() > 0 => words(v),
        _ => match editor {
            Some(e) if words(e).len() > 0 => words(e),
            _ => seq!["less"@],
        },
    }
}

/// The terminal editor of an environment whose `VISUAL` is `visual_var` and whose `EDITOR` is
/// `editor_var`: the first with a word in it, split into its words, or else `less`.
pub fn editor(visual_var: Option<&str>, editor_var: Option<&str>) -> (r: Vec<String>)
    ensures
        texts(r@) == editor_command(
            match visual_var {
                Some(v) => Some(v@),
                None => None,
            },
            match editor_var {
                Some(e) => Some(e@),
                None => None,
            },
        ),
{
    if let Some(v) = visual_var {
        let w = split_words(v);
        if w.len() > 0 {
            return w;
        }
    }
    if let Some(e) = editor_var {
        let w = split_words(e);
        if w.len() > 0 {
            return w;
        }
    }
    let less = vec!["less".to_owned()];
    assert(texts(less@) =~= seq!["less"@]);
    less
}

} // verus!
