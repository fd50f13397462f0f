//! Moving between folders. A folder is known by its key: its path below the root of the file
//! manager, with `/` between names; the root's own key is empty.

use vstd::prelude::*;
use vstd::string::{StrSliceExecFns, StringExecFns};

use vstd::string::StringSliceAdditionalSpecFns;

use crate::path::{below, join, join_path, strip_root};
use crate::text::{chars_of, last_char_before, last_index, lemma_last_index, push_range, split, split_chars, trim, trim_range};

verus! {

/// Whether `key` is `folder` or somewhere below it.
pub open spec fn is_within(key: Seq<char>, folder: Seq<char>) -> bool {
    key == folder || (folder.len() < key.len() && key.subrange(0, folder.len() as int) == folder
        && key[folder.len() as int] == '/')
}

/// Whether `key` is `folder` or below it; everything is below the root, whose key is empty.
pub open spec fn within_spec(key: Seq<char>, folder: Seq<char>) -> bool {
    folder.len() == 0 || is_within(key, folder)
}

/// The key of the folder an entry is in, the root for an entry directly in it.
pub open spec fn parent_of(key: Seq<char>) -> Seq<char> {
    match last_index(key, '/') {
        Some(i) => key.subrange(0, i),
        None => Seq::empty(),
    }
}

/// The name of the entry `key`, without the folders before it.
pub open spec fn name_in(key: Seq<char>) -> Seq<char> {
    match last_index(key, '/') {
        Some(i) => key.subrange(i + 1, key.len() as int),
        None => key,
    }
}

/// The key of the entry `name` inside the folder `parent`.
pub open spec fn child_of(parent: Seq<char>, name: Seq<char>) -> Seq<char> {
    if parent.len() == 0 {
        name
    } else {
        parent + seq!['/'] + name
    }
}

/// The keys of the folders above `key`, nearest first, the root left out.
pub open spec fn ups(key: Seq<char>) -> Seq<Seq<char>>
    decreases key.len(),
{
    let parent = parent_of(key);
    if parent.len() == 0 {
        Seq::empty()
    } else {
        proof {
            lemma_last_index(key, '/');
        }
        seq![parent] + ups(parent)
    }
}

/// The keys of the folders above `key`, from the top down, the root and `key` itself left out.
pub open spec fn above_spec(key: Seq<char>) -> Seq<Seq<char>> {
    ups(key).reverse()
}

/// The name of the folder of `key` that leads down to `from`, when `from` is below `key`.
pub open spec fn way_down_spec(key: Seq<char>, from: Seq<char>) -> Option<Seq<char>> {
    if from == key || !within_spec(from, key) {
        None
    } else {
        let below = if key.len() == 0 {
            from
        } else {
            from.subrange(key.len() as int + 1, from.len() as int)
        };
        Some(split(below, '/')[0])
    }
}

/// What each string of `v` holds.
pub open spec fn texts(v: Seq<String>) -> Seq<Seq<char>> {
    Seq::new(v.len(), |i: int| v[i]@)
}

/// Whether `key` is `folder` or somewhere below it.
pub fn is_within_key(key: &str, folder: &str) -> (r: bool)
    ensures
        r == is_within(key@, folder@),
{
    let k = chars_of(key);
    let f = chars_of(folder);
    if f.len() > k.len() {
        assert(k@ != f@);
        return false;
    }
    let mut i: usize = 0;
    while i < f.len()
        invariant
            k@ == key@,
            f@ == folder@,
            f@.len() <= k@.len(),
            i <= f@.len(),
            forall|m: int| 0 <= m < i ==> k@[m] == f@[m],
        decreases f@.len() - i,
    {
        if k[i] != f[i] {
            assert(k@.subrange(0, f@.len() as int)[i as int] == k@[i as int]);
            assert(k@.subrange(0, f@.len() as int) != f@);
            assert(k@ != f@) by {
                if k@ == f@ {
                    assert(k@[i as int] == f@[i as int]);
                }
            }
            assert(k@ == key@ && f@ == folder@);
            assert(!is_within(key@, folder@));
            return false;
        }
        i += 1;
    }
    assert(k@.subrange(0, f@.len() as int) =~= f@);
    if f.len() == k.len() {
        assert(k@ =~= f@);
        return true;
    }
    k[f.len()] == '/'
}

/// Whether `key` is `folder` or below it; everything is below the root.
pub fn within(key: &str, folder: &str) -> (r: bool)
    ensures
        r == within_spec(key@, folder@),
{
    folder.unicode_len() == 0 || is_within_key(key, folder)
}

/// The key of the folder an entry is in, the root for an entry directly in it.
pub fn parent_key(key: &str) -> (r: String)
    ensures
        r@ == parent_of(key@),
{
    let c = chars_of(key);
    assert(c@.subrange(0, c@.len() as int) =~= key@);
    match last_char_before(&c, '/', c.len()) {
        Some(i) => key.substring_char(0, i).to_owned(),
        None => String::new(),
    }
}

/// The name of the entry `key`, without the folders before it.
pub fn name_of(key: &str) -> (r: String)
    ensures
        r@ == name_in(key@),
{
    let c = chars_of(key);
    assert(c@.subrange(0, c@.len() as int) =~= key@);
    match last_char_before(&c, '/', c.len()) {
        Some(i) => key.substring_char(i + 1, c.len()).to_owned(),
        None => key.to_owned(),
    }
}

/// The key of the entry `name` inside the folder `parent`.
pub fn child_key(parent: &str, name: &str) -> (r: String)
    ensures
        r@ == child_of(parent@, name@),
{
    let mut r = parent.to_owned();
    if parent.unicode_len() > 0 {
        proof {
            reveal_strlit("/");
        }
        r.append("/");
    }
    r.append(name);
    r
}

/// The keys of the folders above `key`, from the top down, the root and `key` itself left out.
pub fn above(key: &str) -> (r: Vec<String>)
    ensures
        texts(r@) == above_spec(key@),
{
    let c = chars_of(key);
    let mut ends: Vec<usize> = Vec::new();
    let mut end = c.len();
    assert(c@.subrange(0, end as int) =~= key@);
    loop
        invariant
            c@ == key@,
            end <= c@.len(),
            ends@.len() + end <= c@.len(),
            forall|i: int| 0 <= i < ends@.len() ==> #[trigger] ends@[i] <= c@.len(),
            ups(key@) == Seq::new(ends@.len(), |i: int| c@.subrange(0, ends@[i] as int)) + ups(
                c@.subrange(0, end as int),
            ),
        ensures
            c@ == key@,
            forall|i: int| 0 <= i < ends@.len() ==> #[trigger] ends@[i] <= c@.len(),
            ups(key@) == Seq::new(ends@.len(), |i: int| c@.subrange(0, ends@[i] as int)),
        decreases end,
    {
        let ghost here = c@.subrange(0, end as int);
        let found = last_char_before(&c, '/', end);
        match found {
            Some(i) if i > 0 => {
                proof {
                    assert(parent_of(here) == c@.subrange(0, i as int)) by {
                        assert(here.subrange(0, i as int) =~= c@.subrange(0, i as int));
                    }
                    lemma_last_index(here, '/');
                    assert(c@.subrange(0, i as int).len() > 0);
                }
                let ghost old_ends = ends@;
                ends.push(i);
                assert(Seq::new(ends@.len(), |j: int| c@.subrange(0, ends@[j] as int)) =~= Seq::new(
                    old_ends.len(),
                    |j: int| c@.subrange(0, old_ends[j] as int),
                ) + seq![c@.subrange(0, i as int)]);
                end = i;
            },
            _ => {
                proof {
                    if let Some(i) = found {
                        assert(parent_of(here) =~= Seq::<char>::empty());
                    }
                    assert(parent_of(here).len() == 0);
                    assert(ups(here) =~= Seq::<Seq<char>>::empty());
                    let n = Seq::new(ends@.len(), |i: int| c@.subrange(0, ends@[i] as int));
                    assert(n + ups(here) =~= n);
                }
                break;
            },
        }
    }
    let ghost nearest = Seq::new(ends@.len(), |i: int| c@.subrange(0, ends@[i] as int));
    assert(ups(key@) =~= nearest);
    let mut out: Vec<String> = Vec::new();
    let mut k = ends.len();
    while k > 0
        invariant
            c@ == key@,
            k <= ends@.len(),
            nearest.len() == ends@.len(),
            forall|i: int| 0 <= i < ends@.len() ==> #[trigger] ends@[i] <= c@.len(),
            forall|i: int| 0 <= i < ends@.len() ==> #[trigger] nearest[i] == c@.subrange(0, ends@[i] as int),
            texts(out@) == nearest.subrange(k as int, nearest.len() as int).reverse(),
        decreases k,
    {
        let cut = ends[k - 1];
        let ghost before = texts(out@);
        let piece = key.substring_char(0, cut).to_owned();
        assert(piece@ == nearest[k - 1]);
        out.push(piece);
        assert(texts(out@) =~= before.push(nearest[k - 1]));
        assert(nearest.subrange(k - 1, nearest.len() as int).reverse() =~= nearest.subrange(
            k as int,
            nearest.len() as int,
        ).reverse().push(nearest[k - 1]));
        k -= 1;
    }
    assert(nearest.subrange(0, nearest.len() as int) =~= nearest);
    out
}

/// The name of the folder of `key` that leads down to `from`, when `from` is below `key`.
pub fn way_down(key: &str, from: &str) -> (r: Option<String>)
    ensures
        r matches Some(name) ==> way_down_spec(key@, from@) == Some(name@),
        r is None ==> way_down_spec(key@, from@) is None,
{
    let c = chars_of(from);
    let k = key.unicode_len();
    let f = c.len();
    if (k == f && is_within_key(from, key)) || !within(from, key) {
        proof {
            if k == f && is_within(from@, key@) {
                assert(from@ =~= key@);
            }
        }
        return None;
    }
    assert(from@ != key@);
    let start = if k == 0 { 0 } else { k + 1 };
    assert(start <= f);
    let pieces = split_chars(&c, start, f, '/');
    proof {
        crate::text::lemma_split_len(c@.subrange(start as int, f as int), '/');
        assert(k == 0 ==> c@.subrange(0, f as int) =~= from@);
    }
    let (a, b) = pieces[0];
    Some(from.substring_char(a, b).to_owned())
}

/// The parts of the path bar: where it starts, the home folder or the root, and each part below
/// it with the key it goes to.
#[derive(Debug, Clone, PartialEq, Eq)]
pub struct Crumbs {
    /// Whether the path starts at the home folder rather than at the root.
    pub at_home: bool,
    /// The key the first part goes to.
    pub start: String,
    /// Each part below the start, with the key it goes to.
    pub parts: Vec<(String, String)>,
}

/// Where the path bar of `folder` starts: the home folder when it holds the folder, else the root.
pub open spec fn crumb_start(folder: Seq<char>, home: Option<Seq<char>>) -> (bool, Seq<char>) {
    match home {
        Some(h) if within_spec(folder, h) => (true, h),
        _ => (false, Seq::empty()),
    }
}

/// What of `folder` lies below `start`.
pub open spec fn crumb_below(folder: Seq<char>, start: Seq<char>) -> Seq<char> {
    if folder == start {
        Seq::empty()
    } else if start.len() == 0 {
        folder
    } else {
        folder.subrange(start.len() as int + 1, folder.len() as int)
    }
}

/// The parts `pieces` below `start` that are names, each with the key it goes to.
pub open spec fn crumb_parts(start: Seq<char>, pieces: Seq<Seq<char>>) -> Seq<(Seq<char>, Seq<char>)>
    decreases pieces.len(),
{
    if pieces.len() == 0 {
        Seq::empty()
    } else {
        let before = crumb_parts(start, pieces.drop_last());
        let part = pieces.last();
        if part.len() == 0 {
            before
        } else {
            let at = if before.len() == 0 {
                start
            } else {
                before.last().1
            };
            before.push((part, child_of(at, part)))
        }
    }
}

/// What each pair of strings holds.
pub open spec fn pair_texts(v: Seq<(String, String)>) -> Seq<(Seq<char>, Seq<char>)> {
    Seq::new(v.len(), |i: int| (v[i].0@, v[i].1@))
}

/// The parts of the path bar for the folder `folder`, with the home folder's key `home` when the
/// home folder is under the root: the home folder and what is below it, or the root and what is
/// below it.
pub fn crumbs(folder: &str, home: Option<&str>) -> (r: Crumbs)
    ensures
        (r.at_home, r.start@) == crumb_start(
            folder@,
            match home {
                Some(h) => Some(h@),
                None => None,
            },
        ),
        pair_texts(r.parts@) == crumb_parts(r.start@, split(crumb_below(folder@, r.start@), '/')),
{
    let (at_home, start) = match home {
        Some(h) if within(folder, h) => (true, h.to_owned()),
        _ => (false, String::new()),
    };
    let c = chars_of(folder);
    let n = c.len();
    let s = start.as_str().unicode_len();
    let same = is_within_key(folder, start.as_str()) && n == s;
    let from = if same {
        n
    } else if s == 0 {
        0
    } else {
        s + 1
    };
    proof {
        if same {
            assert(folder@ =~= start@);
        }
        if !same && s > 0 {
            assert(folder@ != start@);
            assert(within_spec(folder@, start@));
        }
        assert(c@.subrange(from as int, n as int) =~= crumb_below(folder@, start@));
    }
    let pieces = split_chars(&c, from, n, '/');
    let ghost all = split(crumb_below(folder@, start@), '/');
    assert(all == split(c@.subrange(from as int, n as int), '/'));
    assert(pieces@.len() == all.len());
    assert forall|i: int| 0 <= i < pieces@.len() implies from <= #[trigger] pieces@[i].0 <= pieces@[i].1 <= n
        && c@.subrange(pieces@[i].0 as int, pieces@[i].1 as int) == all[i] by {
        assert(c@.subrange(pieces@[i].0 as int, pieces@[i].1 as int) == split(c@.subrange(from as int, n as int), '/')[i]);
    }
    let mut parts: Vec<(String, String)> = Vec::new();
    let mut at = start.clone();
    let mut k: usize = 0;
    assert(all.take(0) =~= Seq::<Seq<char>>::empty());
    while k < pieces.len()
        invariant
            pieces@.len() == all.len(),
            forall|i: int| 0 <= i < pieces@.len() ==> from <= #[trigger] pieces@[i].0 <= pieces@[i].1 <= n && c@.subrange(
                pieces@[i].0 as int,
                pieces@[i].1 as int,
            ) == all[i],
            n == c@.len(),
            c@ == folder@,
            k <= all.len(),
            pair_texts(parts@) == crumb_parts(start@, all.take(k as int)),
            at@ == if parts@.len() == 0 {
                start@
            } else {
                parts@.last().1@
            },
        decreases all.len() - k,
    {
        let (a, b) = pieces[k];
        assert(all.take(k + 1).drop_last() =~= all.take(k as int));
        assert(all.take(k + 1).last() == all[k as int]);
        if a < b {
            let part = folder.substring_char(a, b).to_owned();
            let key = child_key(at.as_str(), part.as_str());
            let ghost before = pair_texts(parts@);
            parts.push((part, key.clone()));
            assert(pair_texts(parts@) =~= before.push((all[k as int], child_of(at@, all[k as int]))));
            at = key;
        } else {
            assert(all[k as int].len() == 0);
        }
        k += 1;
    }
    assert(all.take(k as int) =~= all);
    Crumbs { at_home, start, parts }
}

/// Where a person has been and can go again: the folders behind, the last one nearest, and the
/// ones ahead after going back, the next one nearest.
#[derive(Debug, Clone, PartialEq, Eq)]
pub struct History {
    back: Vec<String>,
    forward: Vec<String>,
}

/// The history as the keys of the folders behind and ahead.
pub struct Trail {
    /// The folders behind, the last one nearest.
    pub back: Seq<Seq<char>>,
    /// The folders ahead, the last one nearest.
    pub forward: Seq<Seq<char>>,
}

/// The history after going back from `current`, and the folder gone back to.
pub open spec fn after_back(t: Trail, current: Seq<char>) -> (Trail, Option<Seq<char>>) {
    if t.back.len() == 0 {
        (t, None)
    } else {
        (Trail { back: t.back.drop_last(), forward: t.forward.push(current) }, Some(t.back.last()))
    }
}

/// The history after going forward from `current`, and the folder gone forward to.
pub open spec fn after_forward(t: Trail, current: Seq<char>) -> (Trail, Option<Seq<char>>) {
    if t.forward.len() == 0 {
        (t, None)
    } else {
        (Trail { back: t.back.push(current), forward: t.forward.drop_last() }, Some(t.forward.last()))
    }
}

/// What a string option holds.
pub open spec fn text_of(o: Option<String>) -> Option<Seq<char>> {
    match o {
        Some(s) => Some(s@),
        None => None,
    }
}

/// Going back and then forward again returns to the folder left, and leaves the history as it
/// was; so does going forward and then back.
pub proof fn back_then_forward_returns(t: Trail, current: Seq<char>)
    ensures
        t.back.len() > 0 ==> ({
            let (after, key) = after_back(t, current);
            &&& key is Some
            &&& after_forward(after, key->0).1 == Some(current)
            &&& after_forward(after, key->0).0 == t
        }),
        t.forward.len() > 0 ==> ({
            let (after, key) = after_forward(t, current);
            &&& key is Some
            &&& after_back(after, key->0).1 == Some(current)
            &&& after_back(after, key->0).0 == t
        }),
{
    if t.back.len() > 0 {
        let (after, key) = after_back(t, current);
        assert(after_forward(after, key->0).0.back =~= t.back);
        assert(after_forward(after, key->0).0.forward =~= t.forward);
    }
    if t.forward.len() > 0 {
        let (after, key) = after_forward(t, current);
        assert(after_back(after, key->0).0.back =~= t.back);
        assert(after_back(after, key->0).0.forward =~= t.forward);
    }
}

impl View for History {
    type V = Trail;

    closed spec fn view(&self) -> Trail {
        Trail { back: texts(self.back@), forward: texts(self.forward@) }
    }
}

impl History {
    /// No history: nothing behind, nothing ahead.
    pub fn new() -> (r: Self)
        ensures
            r@.back.len() == 0,
            r@.forward.len() == 0,
    {
        History { back: Vec::new(), forward: Vec::new() }
    }

    /// Whether there is somewhere to go back to.
    pub fn can_go_back(&self) -> (r: bool)
        ensures
            r == (self@.back.len() > 0),
    {
        self.back.len() > 0
    }

    /// Whether there is somewhere to go forward to.
    pub fn can_go_forward(&self) -> (r: bool)
        ensures
            r == (self@.forward.len() > 0),
    {
        self.forward.len() > 0
    }

    /// A step from `current` into a folder of the person's choosing: `current` goes behind and
    /// what was ahead is let go, as in a browser.
    pub fn step(&mut self, current: String)
        ensures
            final(self)@.back == old(self)@.back.push(current@),
            final(self)@.forward.len() == 0,
    {
        let ghost before = texts(self.back@);
        self.back.push(current);
        assert(texts(self.back@) =~= before.push(current@));
        self.forward = Vec::new();
        assert(texts(self.forward@) =~= Seq::<Seq<char>>::empty());
    }

    /// Going from `current` to `key` as a new step: only a step to another folder is recorded.
    pub fn go(&mut self, current: String, key: &str)
        ensures
            current@ != key@ ==> final(self)@.back == old(self)@.back.push(current@) && final(self)@.forward.len() == 0,
            current@ == key@ ==> final(self)@ == old(self)@,
    {
        let target = key.to_owned();
        if !current.eq(&target) {
            self.step(current);
        }
    }

    /// Back from `current`: the folder behind it, with `current` put ahead; `None` when nothing
    /// is behind, and nothing changes.
    pub fn back(&mut self, current: String) -> (r: Option<String>)
        ensures
            (final(self)@, text_of(r)) == after_back(old(self)@, current@),
    {
        let ghost back = texts(self.back@);
        let ghost forward = texts(self.forward@);
        match self.back.pop() {
            Some(key) => {
                assert(texts(self.back@) =~= back.drop_last());
                self.forward.push(current);
                assert(texts(self.forward@) =~= forward.push(current@));
                assert(self@.back =~= back.drop_last() && self@.forward =~= forward.push(current@));
                Some(key)
            },
            None => None,
        }
    }

    /// Forward from `current`: the folder ahead of it, with `current` put behind; `None` when
    /// nothing is ahead, and nothing changes.
    pub fn forward(&mut self, current: String) -> (r: Option<String>)
        ensures
            (final(self)@, text_of(r)) == after_forward(old(self)@, current@),
    {
        let ghost back = texts(self.back@);
        let ghost forward = texts(self.forward@);
        match self.forward.pop() {
            Some(key) => {
                assert(texts(self.forward@) =~= forward.drop_last());
                self.back.push(current);
                assert(texts(self.back@) =~= back.push(current@));
                assert(self@.back =~= back.push(current@) && self@.forward =~= forward.drop_last());
                Some(key)
            },
            None => None,
        }
    }
}

/// How deep `key` is below the root: the number of names in it, none for the root.
pub open spec fn depth(key: Seq<char>) -> nat {
    if key.len() == 0 {
        0
    } else {
        split(key, '/').len()
    }
}

/// How deep `key` is below the root.
pub fn key_depth(key: &str) -> (r: usize)
    ensures
        r == depth(key@),
{
    let c = chars_of(key);
    if c.len() == 0 {
        return 0;
    }
    let pieces = split_chars(&c, 0, c.len(), '/');
    assert(c@.subrange(0, c@.len() as int) =~= key@);
    pieces.len()
}

/// The entry of the first `n` of `keys` that holds `folder` most closely: the deepest key that
/// `folder` is within. Between two as deep, the later one when `later_wins`, else the earlier. An
/// entry without a key holds nothing.
pub open spec fn deepest_of(folder: Seq<char>, keys: Seq<Option<Seq<char>>>, later_wins: bool, n: int) -> Option<(int, Seq<char>)>
    decreases n,
{
    if n <= 0 {
        None
    } else {
        let best = deepest_of(folder, keys, later_wins, n - 1);
        match keys[n - 1] {
            Some(key) if within_spec(folder, key) => match best {
                Some((_, held)) if (if later_wins {
                    depth(held) > depth(key)
                } else {
                    depth(held) >= depth(key)
                }) => best,
                _ => Some((n - 1, key)),
            },
            _ => best,
        }
    }
}

/// What each optional string holds.
pub open spec fn option_texts(v: Seq<Option<String>>) -> Seq<Option<Seq<char>>> {
    Seq::new(v.len(), |i: int| text_of(v[i]))
}

/// The entry of `keys` that holds the folder `folder` most closely, by its place and its key:
/// the deepest that `folder` is within, the later of two as deep when `later_wins`. The sidebar's
/// pillar goes to it.
pub fn deepest(folder: &str, keys: &Vec<Option<String>>, later_wins: bool) -> (r: Option<(usize, String)>)
    ensures
        r matches Some((i, key)) ==> deepest_of(folder@, option_texts(keys@), later_wins, keys@.len() as int) == Some(
            (i as int, key@),
        ),
        r is None ==> deepest_of(folder@, option_texts(keys@), later_wins, keys@.len() as int) is None,
{
    let ghost all = option_texts(keys@);
    let mut best: Option<(usize, String)> = None;
    let mut best_depth: usize = 0;
    let mut n: usize = 0;
    while n < keys.len()
        invariant
            all == option_texts(keys@),
            n <= keys@.len(),
            best matches Some((i, key)) ==> deepest_of(folder@, all, later_wins, n as int) == Some((i as int, key@))
                && best_depth == depth(key@),
            best is None ==> deepest_of(folder@, all, later_wins, n as int) is None,
        decreases keys@.len() - n,
    {
        assert(all[n as int] == text_of(keys@[n as int]));
        match &keys[n] {
            Some(key) => {
                if within(folder, key.as_str()) {
                    let d = key_depth(key.as_str());
                    let keep = match &best {
                        Some(_) => if later_wins {
                            best_depth > d
                        } else {
                            best_depth >= d
                        },
                        None => false,
                    };
                    if !keep {
                        best = Some((n, key.clone()));
                        best_depth = d;
                    }
                }
            },
            None => {},
        }
        n += 1;
    }
    best
}

/// `s` without the bytes `b` at its start.
pub open spec fn drop_leading(s: Seq<u8>, b: u8) -> Seq<u8>
    decreases s.len(),
{
    if s.len() > 0 && s[0] == b {
        drop_leading(s.drop_first(), b)
    } else {
        s
    }
}

/// Where a path typed into the path field leads, before it is looked for: trimmed, `~` is the home
/// folder `home`, an absolute path is itself, and a relative one starts at the folder shown,
/// `folder`.
pub open spec fn typed_target(value: Seq<char>, home: Seq<u8>, folder: Seq<u8>) -> Seq<u8> {
    let t = vstd::utf8::encode_utf8(trim(value));
    if t.len() > 0 && t[0] == 126u8 && (t.len() == 1 || t[1] == 47u8) {
        join(home, drop_leading(t.subrange(1, t.len() as int), 47u8))
    } else if t.len() > 0 && t[0] == 47u8 {
        t
    } else {
        join(folder, t)
    }
}

/// Where the path typed into the path field leads, before it is looked for.
pub fn typed_path(value: &str, home: &[u8], folder: &[u8]) -> (r: Vec<u8>)
    ensures
        r@ == typed_target(value@, home@, folder@),
{
    let c = chars_of(value);
    let (a, b) = trim_range(&c, 0, c.len());
    assert(c@.subrange(0, c@.len() as int) =~= value@);
    let typed = value.substring_char(a, b);
    let t = typed.as_bytes();
    if t.len() > 0 && t[0] == 126u8 && (t.len() == 1 || t[1] == 47u8) {
        let mut start: usize = 1;
        assert(drop_leading(t@.subrange(1, t@.len() as int), 47u8) == drop_leading(t@.subrange(start as int, t@.len() as int), 47u8));
        while start < t.len() && t[start] == 47u8
            invariant
                1 <= start <= t@.len(),
                drop_leading(t@.subrange(1, t@.len() as int), 47u8) == drop_leading(t@.subrange(start as int, t@.len() as int), 47u8),
            decreases t@.len() - start,
        {
            assert(t@.subrange(start as int, t@.len() as int).drop_first() =~= t@.subrange(start + 1, t@.len() as int));
            start += 1;
        }
        let mut rest: Vec<u8> = Vec::new();
        push_range(&mut rest, t, start, t.len());
        return join_path(home, &rest);
    }
    let mut typed_bytes: Vec<u8> = Vec::new();
    push_range(&mut typed_bytes, t, 0, t.len());
    assert(t@.subrange(0, t@.len() as int) =~= t@);
    if t.len() > 0 && t[0] == 47u8 {
        typed_bytes
    } else {
        join_path(folder, &typed_bytes)
    }
}

/// What is known of one folder on the way down to a goal, about the name of the goal's next
/// folder in it.
#[derive(Debug, Clone, Copy, PartialEq, Eq, Structural)]
pub struct Level {
    /// Whether the folder's entries have been read.
    pub read: bool,
    /// Whether they hold a folder by the next name.
    pub holds_next: bool,
    /// Whether the folder is being read again and has not answered yet.
    pub loading: bool,
    /// Whether the folder may not be looked into.
    pub unreadable: bool,
}

/// What going on towards a goal comes to.
#[derive(Debug, Clone, Copy, PartialEq, Eq, Structural)]
pub enum Settle {
    /// A folder on the way has not been read yet: wait for it.
    Wait,
    /// A folder on the way does not hold the next one, but its listing may be older than the goal:
    /// read the folders once more.
    Reread,
    /// The folder at this depth does not hold the next one, or may not be looked into: stop there
    /// and say why.
    Stop { depth: usize, unreadable: bool },
    /// Every folder on the way holds the next one: step into the goal.
    Arrive,
}

/// What going on towards a goal comes to, from what is known of the folders on the way from
/// `from` on, the root first, each about the goal's next folder; `reread` says whether they were
/// read once more already.
pub open spec fn settle_from(levels: Seq<Level>, from: int, reread: bool) -> Settle
    decreases levels.len() - from,
{
    if from < 0 || from >= levels.len() {
        Settle::Arrive
    } else {
        let level = levels[from];
        if !level.read {
            Settle::Wait
        } else if level.holds_next {
            settle_from(levels, from + 1, reread)
        } else if level.loading {
            Settle::Wait
        } else if !reread && !level.unreadable {
            Settle::Reread
        } else {
            Settle::Stop { depth: from as usize, unreadable: level.unreadable }
        }
    }
}

/// What going on towards a goal comes to: `levels` describes the folders on the way down, the
/// root first, each about the name of the goal's next folder in it, and `reread` whether they were
/// read once more already.
///
/// A folder not read yet is waited for. One that does not hold the next folder is waited for while
/// it is being read again; otherwise its listing may be older than the goal and is read once more,
/// and after that, or when the folder may not be looked into, the way stops there.
pub fn settle_goal(levels: &[Level], reread: bool) -> (r: Settle)
    ensures
        r == settle_from(levels@, 0, reread),
{
    let mut d: usize = 0;
    while d < levels.len()
        invariant
            d <= levels@.len(),
            settle_from(levels@, 0, reread) == settle_from(levels@, d as int, reread),
        decreases levels@.len() - d,
    {
        let level = levels[d];
        if !level.read {
            return Settle::Wait;
        }
        if !level.holds_next {
            if level.loading {
                return Settle::Wait;
            }
            if !reread && !level.unreadable {
                return Settle::Reread;
            }
            return Settle::Stop { depth: d, unreadable: level.unreadable };
        }
        d += 1;
    }
    Settle::Arrive
}

/// `path` as a person reads it: under the home folder `home` it starts with `~`.
pub open spec fn shown_as(path: Seq<u8>, home: Seq<u8>) -> Seq<u8> {
    match below(path, home) {
        Some(rest) => if rest.len() == 0 {
            seq![126u8]
        } else {
            seq![126u8, 47u8] + rest
        },
        None => path,
    }
}

/// `path` as a person reads it: `~` for the home folder `home`, `~/` and the rest below it, and
/// any other path as it is.
pub fn shown(path: &[u8], home: &[u8]) -> (r: Vec<u8>)
    ensures
        r@ == shown_as(path@, home@),
{
    match strip_root(path, home) {
        Some(rest) => {
            let mut out: Vec<u8> = vec![126u8];
            if rest.len() > 0 {
                out.push(47u8);
                push_range(&mut out, &rest, 0, rest.len());
                assert(rest@.subrange(0, rest@.len() as int) =~= rest@);
            }
            assert(out@ =~= shown_as(path@, home@));
            out
        },
        None => {
            let mut out: Vec<u8> = Vec::new();
            push_range(&mut out, path, 0, path.len());
            assert(path@.subrange(0, path@.len() as int) =~= path@);
            out
        },
    }
}

} // verus!
