//! Small pieces of text the rest of the crate builds names and messages from: numbers in
//! decimal, and the white space that is trimmed from what a person types or a tool says.

use vstd::prelude::*;
use vstd::std_specs::iter::IteratorSpec;
use vstd::string::{StrSliceExecFns, StringSliceAdditionalSpecFns};

verus! {

/// The decimal digits of `n`, as the bytes of ASCII text, without leading zeros.
pub open spec fn decimal(n: nat) -> Seq<u8>
    decreases n,
{
    if n < 10 {
        seq![(48 + n) as u8]
    } else {
        decimal(n / 10).push((48 + n % 10) as u8)
    }
}

/// Appends the decimal digits of `n` to `out`.
pub fn push_decimal(out: &mut Vec<u8>, n: u64)
    ensures
        final(out)@ == old(out)@ + decimal(n as nat),
    decreases n,
{
    if n >= 10 {
        push_decimal(out, n / 10);
    }
    out.push(48u8 + (n % 10) as u8);
    proof {
        assert(decimal(n as nat) == if n < 10 {
            seq![(48 + n) as u8]
        } else {
            decimal((n / 10) as nat).push((48 + n % 10) as u8)
        });
    }
}

/// Appends the bytes `from[start..end]` to `out`.
pub fn push_range(out: &mut Vec<u8>, from: &[u8], start: usize, end: usize)
    requires
        start <= end <= from@.len(),
    ensures
        final(out)@ == old(out)@ + from@.subrange(start as int, end as int),
{
    let mut k = start;
    while k < end
        invariant
            start <= k <= end <= from@.len(),
            out@ == old(out)@ + from@.subrange(start as int, k as int),
        decreases end - k,
    {
        out.push(from[k]);
        k += 1;
        assert(out@ =~= old(out)@ + from@.subrange(start as int, k as int));
    }
    assert(from@.subrange(start as int, end as int) =~= from@.subrange(start as int, k as int));
}

/// The bytes each vector of `v` holds.
pub open spec fn views<A>(v: Seq<Vec<A>>) -> Seq<Seq<A>> {
    Seq::new(v.len(), |i: int| v[i]@)
}

/// The pieces of `s` between the bytes `sep`, in order: one piece more than there are `sep`
/// bytes, so an empty `s` is one empty piece and a `sep` at either end gives an empty piece there.
pub open spec fn split<A>(s: Seq<A>, sep: A) -> Seq<Seq<A>>
    decreases s.len(),
{
    if s.len() == 0 {
        seq![Seq::empty()]
    } else {
        let before = split(s.drop_last(), sep);
        if s.last() == sep {
            before.push(Seq::empty())
        } else {
            before.update(before.len() - 1, before.last().push(s.last()))
        }
    }
}

/// There is always a piece.
pub proof fn lemma_split_len<A>(s: Seq<A>, sep: A)
    ensures
        split(s, sep).len() >= 1,
    decreases s.len(),
{
    if s.len() > 0 {
        lemma_split_len(s.drop_last(), sep);
    }
}

/// The pieces of `s` between the bytes `sep`.
pub fn split_bytes(s: &[u8], sep: u8) -> (r: Vec<Vec<u8>>)
    ensures
        views(r@) == split(s@, sep),
{
    let mut done: Vec<Vec<u8>> = Vec::new();
    let mut piece: Vec<u8> = Vec::new();
    let mut k: usize = 0;
    assert(s@.subrange(0, 0) =~= Seq::<u8>::empty());
    while k < s.len()
        invariant
            k <= s@.len(),
            views(done@).push(piece@) == split(s@.subrange(0, k as int), sep),
        decreases s@.len() - k,
    {
        let ghost before = views(done@).push(piece@);
        proof {
            assert(s@.subrange(0, k + 1).drop_last() =~= s@.subrange(0, k as int));
            lemma_split_len(s@.subrange(0, k as int), sep);
        }
        if s[k] == sep {
            let finished = piece;
            done.push(finished);
            piece = Vec::new();
            assert(views(done@).push(piece@) =~= before.push(Seq::empty()));
        } else {
            piece.push(s[k]);
            assert(views(done@).push(piece@) =~= before.update(before.len() - 1, before.last().push(s@[k as int])));
        }
        k += 1;
    }
    assert(s@.subrange(0, k as int) =~= s@);
    let ghost before = views(done@).push(piece@);
    done.push(piece);
    assert(views(done@) =~= before);
    done
}

/// Whether the bytes of `a` and `b` are the same.
pub fn same_bytes(a: &[u8], b: &[u8]) -> (r: bool)
    ensures
        r == (a@ == b@),
{
    if a.len() != b.len() {
        return false;
    }
    let mut k: usize = 0;
    while k < a.len()
        invariant
            a@.len() == b@.len(),
            k <= a@.len(),
            forall|m: int| 0 <= m < k ==> a@[m] == b@[m],
        decreases a@.len() - k,
    {
        if a[k] != b[k] {
            return false;
        }
        k += 1;
    }
    assert(a@ =~= b@);
    true
}

/// The bytes of a piece of text.
pub fn bytes_of(s: &str) -> (r: Vec<u8>)
    ensures
        r@ == s.spec_bytes(),
{
    let b = s.as_bytes();
    let mut out: Vec<u8> = Vec::new();
    push_range(&mut out, b, 0, b.len());
    assert(b@.subrange(0, b@.len() as int) =~= b@);
    out
}

/// The characters of `s`, in order.
pub fn chars_of(s: &str) -> (r: Vec<char>)
    ensures
        r@ == s@,
{
    broadcast use vstd::string::axiom_spec_iter, vstd::string::next_postcondition;

    let mut it = s.chars();
    let mut out: Vec<char> = Vec::new();
    assert(out@ + it.remaining() =~= s@);
    loop
        invariant
            out@ + it.remaining() == s@,
        ensures
            out@ == s@,
        decreases s@.len() - out@.len(),
    {
        let ghost before = it.remaining();
        match it.next() {
            Some(c) => {
                out.push(c);
                assert(out@ + it.remaining() =~= s@);
            },
            None => {
                assert(out@ =~= s@);
                break;
            },
        }
    }
    out
}

/// Whether `c` is white space as Unicode counts it (the `White_Space` property).
pub open spec fn is_space(c: char) -> bool {
    let u = c as u32;
    ||| 9 <= u <= 13
    ||| u == 32
    ||| u == 0x85
    ||| u == 0xA0
    ||| u == 0x1680
    ||| 0x2000 <= u <= 0x200A
    ||| u == 0x2028
    ||| u == 0x2029
    ||| u == 0x202F
    ||| u == 0x205F
    ||| u == 0x3000
}

/// Whether `c` is white space as Unicode counts it.
pub fn space(c: char) -> (r: bool)
    ensures
        r == is_space(c),
{
    let u = c as u32;
    (9 <= u && u <= 13) || u == 32 || u == 0x85 || u == 0xA0 || u == 0x1680 || (0x2000 <= u && u
        <= 0x200A) || u == 0x2028 || u == 0x2029 || u == 0x202F || u == 0x205F || u == 0x3000
}

/// `s` without the white space at its start.
pub open spec fn trim_start(s: Seq<char>) -> Seq<char>
    decreases s.len(),
{
    if s.len() > 0 && is_space(s[0]) {
        trim_start(s.drop_first())
    } else {
        s
    }
}

/// `s` without the white space at its end.
pub open spec fn trim_end(s: Seq<char>) -> Seq<char>
    decreases s.len(),
{
    if s.len() > 0 && is_space(s.last()) {
        trim_end(s.drop_last())
    } else {
        s
    }
}

/// `s` without the white space at either end.
pub open spec fn trim(s: Seq<char>) -> Seq<char> {
    trim_end(trim_start(s))
}

/// Where `s[start..end]` is once the white space at its ends is taken off.
pub fn trim_range(s: &Vec<char>, start: usize, end: usize) -> (r: (usize, usize))
    requires
        start <= end <= s@.len(),
    ensures
        start <= r.0 <= r.1 <= end,
        s@.subrange(r.0 as int, r.1 as int) == trim(s@.subrange(start as int, end as int)),
{
    let mut a = start;
    while a < end && space(s[a])
        invariant
            start <= a <= end <= s@.len(),
            trim_start(s@.subrange(start as int, end as int)) == trim_start(s@.subrange(a as int, end as int)),
        decreases end - a,
    {
        assert(s@.subrange(a as int, end as int).drop_first() =~= s@.subrange(a + 1, end as int));
        a += 1;
    }
    let mut b = end;
    while b > a && space(s[b - 1])
        invariant
            start <= a <= b <= end <= s@.len(),
            trim_end(s@.subrange(a as int, end as int)) == trim_end(s@.subrange(a as int, b as int)),
        decreases b - a,
    {
        assert(s@.subrange(a as int, b as int).drop_last() =~= s@.subrange(a as int, b - 1));
        b -= 1;
    }
    (a, b)
}

/// Whether `needle` stands somewhere in `hay`.
pub open spec fn contains(hay: Seq<char>, needle: Seq<char>) -> bool {
    exists|i: int| 0 <= i && i + needle.len() <= hay.len() && #[trigger] hay.subrange(i, i + needle.len()) == needle
}

/// Whether `needle` stands somewhere in `s[start..end]`.
pub fn contains_in(s: &Vec<char>, start: usize, end: usize, needle: &Vec<char>) -> (r: bool)
    requires
        start <= end <= s@.len(),
    ensures
        r == contains(s@.subrange(start as int, end as int), needle@),
{
    let ghost hay = s@.subrange(start as int, end as int);
    if needle.len() > end - start {
        assert(!contains(hay, needle@));
        return false;
    }
    let last = end - needle.len();
    let mut i = start;
    while i <= last
        invariant
            start <= i <= last + 1,
            last + needle@.len() == end,
            end <= s@.len(),
            hay == s@.subrange(start as int, end as int),
            forall|j: int| 0 <= j < i - start ==> #[trigger] hay.subrange(j, j + needle@.len()) != needle@,
        decreases last + 1 - i,
    {
        let mut k: usize = 0;
        while k < needle.len() && s[i + k] == needle[k]
            invariant
                start <= i <= last,
                last + needle@.len() == end,
                end <= s@.len(),
                k <= needle@.len(),
                forall|m: int| 0 <= m < k ==> s@[i + m] == needle@[m],
            decreases needle@.len() - k,
        {
            k += 1;
        }
        if k == needle.len() {
            assert(hay.subrange(i - start, i - start + needle@.len()) =~= needle@);
            return true;
        }
        assert(hay.subrange(i - start, i - start + needle@.len())[k as int] != needle@[k as int]);
        i += 1;
    }
    assert(!contains(hay, needle@)) by {
        assert forall|j: int| 0 <= j && j + needle@.len() <= hay.len() implies #[trigger] hay.subrange(
            j,
            j + needle@.len(),
        ) != needle@ by {
            assert(j < i - start);
        }
    }
    false
}

/// The place of the last `x` in `s`.
pub open spec fn last_index<A>(s: Seq<A>, x: A) -> Option<int>
    decreases s.len(),
{
    if s.len() == 0 {
        None
    } else if s.last() == x {
        Some(s.len() - 1)
    } else {
        last_index(s.drop_last(), x)
    }
}

/// The place of the last `x` in `s[..end]`.
pub fn last_char_before(s: &Vec<char>, x: char, end: usize) -> (r: Option<usize>)
    requires
        end <= s@.len(),
    ensures
        r matches Some(i) ==> last_index(s@.subrange(0, end as int), x) == Some(i as int) && i < end,
        r is None ==> last_index(s@.subrange(0, end as int), x) is None,
{
    let mut k = end;
    while k > 0
        invariant
            k <= end <= s@.len(),
            last_index(s@.subrange(0, end as int), x) == last_index(s@.subrange(0, k as int), x),
        decreases k,
    {
        if s[k - 1] == x {
            return Some(k - 1);
        }
        assert(s@.subrange(0, k as int).drop_last() =~= s@.subrange(0, k - 1));
        k -= 1;
    }
    None
}

pub proof fn lemma_last_index<A>(s: Seq<A>, x: A)
    ensures
        last_index(s, x) matches Some(i) ==> 0 <= i < s.len() && s[i] == x,
    decreases s.len(),
{
    if s.len() > 0 && s.last() != x {
        lemma_last_index(s.drop_last(), x);
    }
}

/// Whether a line is worth showing: something is left once it is trimmed, and, when `skip` is
/// given, the trimmed line does not hold it.
pub open spec fn worth_showing(line: Seq<char>, skip: Option<Seq<char>>) -> bool {
    &&& trim(line).len() > 0
    &&& skip matches Some(words) ==> !contains(trim(line), words)
}

/// The last line of `s` worth showing, trimmed. Lines end at `\n`; a `\r` before it is white
/// space and goes with the trimming.
pub open spec fn last_line_of(s: Seq<char>, skip: Option<Seq<char>>) -> Option<Seq<char>>
    decreases s.len(),
{
    match last_index(s, '\n') {
        Some(i) => {
            proof {
                lemma_last_index(s, '\n');
            }
            let line = s.subrange(i + 1, s.len() as int);
            if worth_showing(line, skip) {
                Some(trim(line))
            } else {
                last_line_of(s.subrange(0, i), skip)
            }
        },
        None => if worth_showing(s, skip) {
            Some(trim(s))
        } else {
            None
        },
    }
}

/// The characters of the words to skip, when there are any.
pub open spec fn skip_words(skip: Option<&str>) -> Option<Seq<char>> {
    match skip {
        Some(w) => Some(w@),
        None => None,
    }
}

/// The last line of `text` worth showing, trimmed; with `skip`, a line holding it is passed over.
pub fn last_line_skipping(text: &str, skip: Option<&str>) -> (r: Option<String>)
    ensures
        r matches Some(line) ==> last_line_of(text@, skip_words(skip)) == Some(line@),
        r is None ==> last_line_of(text@, skip_words(skip)) is None,
{
    let c = chars_of(text);
    let words: Option<Vec<char>> = match skip {
        Some(w) => Some(chars_of(w)),
        None => None,
    };
    let ghost wanted = skip_words(skip);
    let mut end = c.len();
    assert(c@.subrange(0, end as int) =~= text@);
    loop
        invariant
            c@ == text@,
            end <= c@.len(),
            wanted == skip_words(skip),
            words matches Some(v) ==> wanted == Some(v@),
            words is None ==> wanted is None,
            last_line_of(text@, wanted) == last_line_of(c@.subrange(0, end as int), wanted),
        decreases end,
    {
        let ghost part = c@.subrange(0, end as int);
        let found = last_char_before(&c, '\n', end);
        let start = match found {
            Some(i) => i + 1,
            None => 0,
        };
        proof {
            if start == 0 {
                assert(part.subrange(0, part.len() as int) =~= part);
            }
            assert(part.subrange(start as int, part.len() as int) =~= c@.subrange(start as int, end as int));
        }
        let (a, b) = trim_range(&c, start, end);
        let shown = a < b && match &words {
            Some(v) => !contains_in(&c, a, b, v),
            None => true,
        };
        assert(shown == worth_showing(c@.subrange(start as int, end as int), wanted));
        if shown {
            let line = text.substring_char(a, b).to_owned();
            return Some(line);
        }
        if start == 0 {
            return None;
        }
        proof {
            assert(part.subrange(0, start - 1) =~= c@.subrange(0, start - 1));
        }
        end = start - 1;
    }
}

/// Text with no `sep` in it lengthens the last piece.
pub proof fn lemma_split_append_free<A>(s: Seq<A>, t: Seq<A>, sep: A)
    requires
        forall|i: int| 0 <= i < t.len() ==> t[i] != sep,
    ensures
        split(s + t, sep) == split(s, sep).update(split(s, sep).len() - 1, split(s, sep).last() + t),
    decreases t.len(),
{
    lemma_split_len(s, sep);
    if t.len() == 0 {
        assert(s + t =~= s);
        assert(split(s, sep).last() + t =~= split(s, sep).last());
        assert(split(s, sep).update(split(s, sep).len() - 1, split(s, sep).last()) =~= split(s, sep));
    } else {
        let u = t.drop_last();
        lemma_split_append_free(s, u, sep);
        assert((s + t).drop_last() =~= s + u);
        assert((s + t).last() == t.last());
        lemma_split_len(s + u, sep);
        let before = split(s + u, sep);
        let start = split(s, sep);
        assert(before.len() == start.len());
        assert(before.last() == start.last() + u);
        assert(split(s + t, sep) == before.update(before.len() - 1, before.last().push(t.last())));
        assert(before.last().push(t.last()) =~= start.last() + t);
        assert(split(s, sep).last() + u + seq![t.last()] =~= split(s, sep).last() + t);
        assert(split(s + t, sep) =~= split(s, sep).update(split(s, sep).len() - 1, split(s, sep).last() + t));
    }
}

/// A `sep` at the end starts a new, empty piece.
pub proof fn lemma_split_push_sep<A>(s: Seq<A>, sep: A)
    ensures
        split(s.push(sep), sep) == split(s, sep).push(Seq::empty()),
{
    assert(s.push(sep).drop_last() =~= s);
}

/// The pieces of the characters `s[start..end]` between the characters `sep`, as the places where
/// each piece starts and ends in `s`.
pub fn split_chars(s: &Vec<char>, start: usize, end: usize, sep: char) -> (r: Vec<(usize, usize)>)
    requires
        start <= end <= s@.len(),
    ensures
        r@.len() == split(s@.subrange(start as int, end as int), sep).len(),
        forall|i: int| 0 <= i < r@.len() ==> start <= #[trigger] r@[i].0 <= r@[i].1 <= end && s@.subrange(
            r@[i].0 as int,
            r@[i].1 as int,
        ) == split(s@.subrange(start as int, end as int), sep)[i],
{
    let ghost range = s@.subrange(start as int, end as int);
    let mut done: Vec<(usize, usize)> = Vec::new();
    let mut from = start;
    let mut k = start;
    assert(range.subrange(0, 0) =~= Seq::<char>::empty());
    while k < end
        invariant
            start <= from <= k <= end <= s@.len(),
            range == s@.subrange(start as int, end as int),
            done@.len() + 1 == split(range.subrange(0, k - start), sep).len(),
            forall|i: int| 0 <= i < done@.len() ==> start <= #[trigger] done@[i].0 <= done@[i].1 <= end && s@.subrange(
                done@[i].0 as int,
                done@[i].1 as int,
            ) == split(range.subrange(0, k - start), sep)[i],
            s@.subrange(from as int, k as int) == split(range.subrange(0, k - start), sep).last(),
        decreases end - k,
    {
        let ghost before = split(range.subrange(0, k - start), sep);
        proof {
            assert(range.subrange(0, k + 1 - start).drop_last() =~= range.subrange(0, k - start));
            assert(range.subrange(0, k + 1 - start).last() == s@[k as int]);
            lemma_split_len(range.subrange(0, k - start), sep);
        }
        if s[k] == sep {
            done.push((from, k));
            from = k + 1;
            assert(s@.subrange(from as int, k + 1) =~= Seq::<char>::empty());
        } else {
            assert(s@.subrange(from as int, k + 1) =~= s@.subrange(from as int, k as int).push(s@[k as int]));
        }
        k += 1;
    }
    assert(range.subrange(0, k - start) =~= range);
    done.push((from, k));
    done
}

/// Nothing after the last `x` is an `x`, and without a last `x` there is none.
proof fn lemma_last_index_after<A>(s: Seq<A>, x: A)
    ensures
        last_index(s, x) matches Some(i) ==> forall|j: int| i < j < s.len() ==> s[j] != x,
        last_index(s, x) is None ==> forall|j: int| 0 <= j < s.len() ==> s[j] != x,
    decreases s.len(),
{
    if s.len() > 0 && s.last() != x {
        let rest = s.drop_last();
        lemma_last_index_after(rest, x);
        lemma_last_index(rest, x);
        match last_index(rest, x) {
            Some(i) => {
                assert forall|j: int| i < j < s.len() implies s[j] != x by {
                    if j < rest.len() {
                        assert(rest[j] == s[j]);
                    }
                }
            },
            None => {
                assert forall|j: int| 0 <= j < s.len() implies s[j] != x by {
                    if j < rest.len() {
                        assert(rest[j] == s[j]);
                    }
                }
            },
        }
    }
}

/// Whether line `i` of `lines` is worth showing and no line after it is.
pub open spec fn is_last_worth_showing(lines: Seq<Seq<char>>, skip: Option<Seq<char>>, i: int) -> bool {
    &&& 0 <= i < lines.len()
    &&& worth_showing(lines[i], skip)
    &&& forall|j: int| i < j < lines.len() ==> !worth_showing(#[trigger] lines[j], skip)
}

/// The line given for a text is the last of its lines (the pieces between `\n`) that is worth
/// showing, trimmed; none is given exactly when no line is worth showing.
pub proof fn last_line_is_the_last_worth_showing(s: Seq<char>, skip: Option<Seq<char>>)
    ensures
        last_line_of(s, skip) matches Some(l) ==> exists|i: int|
            #[trigger] is_last_worth_showing(split(s, '\n'), skip, i) && l == trim(split(s, '\n')[i]),
        last_line_of(s, skip) is None ==> forall|i: int|
            0 <= i < split(s, '\n').len() ==> !worth_showing(#[trigger] split(s, '\n')[i], skip),
    decreases s.len(),
{
    lemma_last_index(s, '\n');
    lemma_last_index_after(s, '\n');
    match last_index(s, '\n') {
        Some(i) => {
            let before = s.subrange(0, i);
            let line = s.subrange(i + 1, s.len() as int);
            assert(s =~= before.push('\n') + line);
            lemma_split_push_sep(before, '\n');
            lemma_split_append_free(before.push('\n'), line, '\n');
            let lines = split(s, '\n');
            let first = split(before, '\n');
            assert(lines =~= first.push(line)) by {
                assert(first.push(Seq::<char>::empty()).last() + line =~= line);
            }
            last_line_is_the_last_worth_showing(before, skip);
            if worth_showing(line, skip) {
                assert(is_last_worth_showing(lines, skip, first.len() as int));
            } else {
                match last_line_of(before, skip) {
                    Some(l) => {
                        let k = choose|k: int| #[trigger] is_last_worth_showing(first, skip, k) && l == trim(first[k]);
                        assert forall|j: int| k < j < lines.len() implies !worth_showing(#[trigger] lines[j], skip) by {
                            if j < first.len() {
                                assert(lines[j] == first[j]);
                            }
                        }
                        assert(lines[k] == first[k]);
                        assert(is_last_worth_showing(lines, skip, k));
                    },
                    None => {
                        assert forall|j: int| 0 <= j < lines.len() implies !worth_showing(#[trigger] lines[j], skip) by {
                            if j < first.len() {
                                assert(lines[j] == first[j]);
                            }
                        }
                    },
                }
            }
        },
        None => {
            lemma_split_append_free(Seq::<char>::empty(), s, '\n');
            assert(Seq::<char>::empty() + s =~= s);
            let lines = split(s, '\n');
            assert(lines =~= seq![s]) by {
                assert(seq![Seq::<char>::empty()].update(0, Seq::<char>::empty() + s) =~= seq![s]);
            }
            if worth_showing(s, skip) {
                assert(is_last_worth_showing(lines, skip, 0));
            }
        },
    }
}

} // verus!
