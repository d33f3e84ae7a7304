//! Character-level text helpers on which the row handling is built.
//!
//! Contracts speak of `Seq<char>`, the view of `str` and `String`. The
//! executable functions work on `Vec<char>`, so that a character is reached
//! by index in constant time.

use vstd::prelude::*;

verus! {

/// `String::push` appends one character to the end of the string.
pub assume_specification[ String::push ](s: &mut String, ch: char)
    ensures
        final(s)@ == old(s)@.push(ch),
;

/// Index of the first occurrence of `x` in `s`, or `s.len()` when `x` does
/// not occur.
pub open spec fn index_of<T>(s: Seq<T>, x: T) -> int
    decreases s.len(),
{
    if s.len() == 0 || s[0] == x {
        0
    } else {
        1 + index_of(s.drop_first(), x)
    }
}

/// `index_of` is the one index that is reached without passing `x`.
pub proof fn lemma_index_of<T>(s: Seq<T>, x: T, i: int)
    requires
        0 <= i <= s.len(),
        forall|j: int| 0 <= j < i ==> s[j] != x,
        i < s.len() ==> s[i] == x,
    ensures
        index_of(s, x) == i,
    decreases s.len(),
{
    if s.len() == 0 || s[0] == x {
    } else {
        let t = s.drop_first();
        assert forall|j: int| 0 <= j < i - 1 implies t[j] != x by {
            assert(t[j] == s[j + 1]);
        }
        lemma_index_of(t, x, i - 1);
    }
}

/// What `index_of` returns: a position within bounds, nothing equal to `x`
/// before it, and `x` at it unless it is the length.
pub proof fn lemma_index_of_bounds<T>(s: Seq<T>, x: T)
    ensures
        0 <= index_of(s, x) <= s.len(),
        forall|j: int| 0 <= j < index_of(s, x) ==> s[j] != x,
        index_of(s, x) < s.len() ==> s[index_of(s, x)] == x,
        index_of(s, x) < s.len() <==> s.contains(x),
    decreases s.len(),
{
    if s.len() == 0 {
    } else if s[0] == x {
        assert(s.contains(x));
    } else {
        let t = s.drop_first();
        lemma_index_of_bounds(t, x);
        let k = index_of(t, x);
        assert forall|j: int| 0 <= j < k + 1 implies s[j] != x by {
            if j > 0 {
                assert(t[j - 1] == s[j]);
            }
        }
        if k < t.len() {
            assert(t[k] == s[k + 1]);
            assert(s.contains(x));
        } else {
            assert forall|j: int| 0 <= j < s.len() implies s[j] != x by {}
        }
    }
}

/// Appending to `s` does not move the first occurrence of something that
/// `s` holds.
pub proof fn lemma_index_of_push<T>(s: Seq<T>, y: T, x: T)
    ensures
        s.contains(x) ==> index_of(s.push(y), x) == index_of(s, x),
        !s.contains(x) && y == x ==> index_of(s.push(y), x) == s.len(),
        !s.contains(x) && y != x ==> index_of(s.push(y), x) == s.len() + 1,
{
    lemma_index_of_bounds(s, x);
    let i = index_of(s, x);
    let t = s.push(y);
    if s.contains(x) {
        assert forall|j: int| 0 <= j < i implies t[j] != x by {
            assert(t[j] == s[j]);
        }
        assert(t[i] == s[i]);
        lemma_index_of(t, x, i);
    } else if y == x {
        assert forall|j: int| 0 <= j < s.len() implies t[j] != x by {
            assert(t[j] == s[j]);
        }
        lemma_index_of(t, x, s.len() as int);
    } else {
        assert forall|j: int| 0 <= j < s.len() + 1 implies t[j] != x by {
            if j < s.len() {
                assert(t[j] == s[j]);
            }
        }
        lemma_index_of(t, x, s.len() as int + 1);
    }
}

/// The fields of `s`: the pieces between occurrences of `delim`. A text
/// with n delimiters has n + 1 fields, some of them possibly empty.
pub open spec fn split(s: Seq<char>, delim: char) -> Seq<Seq<char>>
    decreases s.len(),
{
    let n = index_of(s, delim);
    if 0 <= n < s.len() {
        seq![s.subrange(0, n)] + split(s.subrange(n + 1, s.len() as int), delim)
    } else {
        seq![s]
    }
}

/// `s` without the occurrences of `pat`, found from left to right and not
/// overlapping. An empty pattern removes nothing.
pub open spec fn remove_all(s: Seq<char>, pat: Seq<char>) -> Seq<char>
    decreases s.len(),
{
    if pat.len() == 0 || s.len() < pat.len() {
        s
    } else if s.subrange(0, pat.len() as int) == pat {
        remove_all(s.subrange(pat.len() as int, s.len() as int), pat)
    } else {
        seq![s[0]] + remove_all(s.subrange(1, s.len() as int), pat)
    }
}

/// Removing a pattern adds no character: whatever occurs in the result
/// occurs in the text.
pub proof fn lemma_remove_all_adds_nothing(s: Seq<char>, pat: Seq<char>, c: char)
    requires
        remove_all(s, pat).contains(c),
    ensures
        s.contains(c),
    decreases s.len(),
{
    if pat.len() == 0 || s.len() < pat.len() {
    } else if s.subrange(0, pat.len() as int) == pat {
        let rest = s.subrange(pat.len() as int, s.len() as int);
        lemma_remove_all_adds_nothing(rest, pat, c);
        let i = choose|i: int| 0 <= i < rest.len() && rest[i] == c;
        assert(s[pat.len() + i] == c);
    } else {
        let rest = s.subrange(1, s.len() as int);
        let out = remove_all(rest, pat);
        let k = choose|k: int| 0 <= k < (seq![s[0]] + out).len() && (seq![s[0]] + out)[k] == c;
        if k == 0 {
            assert(s[0] == c);
        } else {
            assert(out[k - 1] == c);
            lemma_remove_all_adds_nothing(rest, pat, c);
            let i = choose|i: int| 0 <= i < rest.len() && rest[i] == c;
            assert(s[1 + i] == c);
        }
    }
}

/// Removing a pattern of one character leaves no such character, and
/// leaves a text without that character as it is.
pub proof fn lemma_remove_all_of_char(s: Seq<char>, c: char)
    ensures
        !remove_all(s, seq![c]).contains(c),
        !s.contains(c) ==> remove_all(s, seq![c]) == s,
    decreases s.len(),
{
    let pat = seq![c];
    if s.len() < 1 {
    } else if s.subrange(0, 1) == pat {
        assert(s.subrange(0, 1)[0] == s[0]);
        assert(s.contains(c));
        lemma_remove_all_of_char(s.subrange(1, s.len() as int), c);
    } else {
        let rest = s.subrange(1, s.len() as int);
        lemma_remove_all_of_char(rest, c);
        let out = seq![s[0]] + remove_all(rest, pat);
        if s[0] == c {
            assert(s.subrange(0, 1) =~= pat);
        }
        if out.contains(c) {
            let k = choose|k: int| 0 <= k < out.len() && out[k] == c;
            assert(remove_all(rest, pat)[k - 1] == c);
        }
        if !s.contains(c) {
            if rest.contains(c) {
                let i = choose|i: int| 0 <= i < rest.len() && rest[i] == c;
                assert(s[1 + i] == c);
            }
            assert(out =~= s);
        }
    }
}

/// A line without the carriage return that may end it.
pub open spec fn strip_cr(line: Seq<char>) -> Seq<char> {
    if line.len() > 0 && line.last() == '\r' {
        line.drop_last()
    } else {
        line
    }
}

/// The lines of `s`. A line ends at a line feed; the line feed, and a
/// carriage return directly before it, are not part of the line. Text after
/// the last line feed is a line of its own, unless it is empty.
pub open spec fn split_lines(s: Seq<char>) -> Seq<Seq<char>>
    decreases s.len(),
{
    let n = index_of(s, '\n');
    if s.len() == 0 {
        seq![]
    } else if 0 <= n < s.len() {
        seq![strip_cr(s.subrange(0, n))] + split_lines(s.subrange(n + 1, s.len() as int))
    } else {
        seq![s]
    }
}

/// The views of the items of `s`, in order.
pub open spec fn views<T: View>(s: Seq<T>) -> Seq<T::V> {
    Seq::new(s.len(), |i: int| s[i]@)
}

/// The characters of `s`, in order.
pub fn to_chars(s: &str) -> (chars: Vec<char>)
    ensures
        chars@ == s@,
{
    let mut chars: Vec<char> = Vec::new();
    for c in it: s.chars()
        invariant
            chars@ == it.seq().take(it.index() as int),
            it.seq() == s@,
    {
        chars.push(c);
    }
    chars
}

/// The string made of `chars`, in order.
pub fn from_chars(chars: &Vec<char>) -> (s: String)
    ensures
        s@ == chars@,
{
    let mut s = String::new();
    let mut i: usize = 0;
    while i < chars.len()
        invariant
            i <= chars.len(),
            s@ == chars@.take(i as int),
        decreases chars.len() - i,
    {
        s.push(chars[i]);
        i += 1;
    }
    s
}

/// Whether two character vectors hold the same text.
pub fn same_chars(a: &Vec<char>, b: &Vec<char>) -> (same: bool)
    ensures
        same == (a@ == b@),
{
    if a.len() != b.len() {
        return false;
    }
    let mut i: usize = 0;
    while i < a.len()
        invariant
            i <= a.len(),
            a.len() == b.len(),
            a@.take(i as int) == b@.take(i as int),
        decreases a.len() - i,
    {
        if a[i] != b[i] {
            return false;
        }
        assert(a@.take(i + 1) == a@.take(i as int).push(a@[i as int]));
        assert(b@.take(i + 1) == b@.take(i as int).push(b@[i as int]));
        i += 1;
    }
    assert(a@ == a@.take(a.len() as int));
    assert(b@ == b@.take(b.len() as int));
    true
}

/// Splits `s` at every occurrence of `delim`.
pub fn split_chars(s: &Vec<char>, delim: char) -> (fields: Vec<Vec<char>>)
    ensures
        views(fields@) == split(s@, delim),
{
    let mut fields: Vec<Vec<char>> = Vec::new();
    let mut current: Vec<char> = Vec::new();
    let mut start: usize = 0;
    let mut i: usize = 0;
    assert(s@.subrange(0, s.len() as int) == s@);
    assert(views(fields@) + split(s@, delim) == split(s@, delim));
    while i < s.len()
        invariant
            start <= i <= s.len(),
            current@ == s@.subrange(start as int, i as int),
            forall|j: int| start <= j < i ==> s@[j] != delim,
            views(fields@) + split(s@.subrange(start as int, s.len() as int), delim) == split(
                s@,
                delim,
            ),
        decreases s.len() - i,
    {
        let c = s[i];
        if c == delim {
            proof {
                let rest = s@.subrange(start as int, s.len() as int);
                assert forall|j: int| 0 <= j < i - start implies rest[j] != delim by {
                    assert(rest[j] == s@[start + j]);
                }
                lemma_index_of(rest, delim, i - start);
                assert(rest.subrange(0, i - start) == current@);
                assert(rest.subrange(i - start + 1, rest.len() as int) == s@.subrange(
                    i + 1,
                    s.len() as int,
                ));
                assert(views(fields@).push(current@) + split(
                    s@.subrange(i + 1, s.len() as int),
                    delim,
                ) == views(fields@) + split(rest, delim));
                assert(views(fields@.push(current)) == views(fields@).push(current@));
            }
            fields.push(current);
            current = Vec::new();
            start = i + 1;
        } else {
            current.push(c);
        }
        i += 1;
    }
    proof {
        let rest = s@.subrange(start as int, s.len() as int);
        lemma_index_of(rest, delim, rest.len() as int);
        assert(split(rest, delim) == seq![rest]);
        assert(views(fields@.push(current)) == views(fields@) + seq![rest]);
    }
    fields.push(current);
    fields
}

/// Whether `pat` stands in `s` at position `at`.
pub fn matches_at(s: &Vec<char>, at: usize, pat: &Vec<char>) -> (found: bool)
    requires
        at <= s.len(),
    ensures
        found == (at + pat.len() <= s.len() && s@.subrange(at as int, at + pat.len()) == pat@),
{
    if pat.len() > s.len() - at {
        return false;
    }
    let mut k: usize = 0;
    while k < pat.len()
        invariant
            k <= pat.len(),
            at + pat.len() <= s.len(),
            s@.subrange(at as int, at + k) == pat@.take(k as int),
        decreases pat.len() - k,
    {
        if s[at + k] != pat[k] {
            assert(s@.subrange(at as int, at + pat.len())[k as int] != pat@[k as int]);
            return false;
        }
        assert(s@.subrange(at as int, at + k + 1) == s@.subrange(at as int, at + k).push(
            s@[at + k],
        ));
        assert(pat@.take(k + 1) == pat@.take(k as int).push(pat@[k as int]));
        k += 1;
    }
    assert(pat@.take(pat.len() as int) == pat@);
    true
}

/// Removes every occurrence of `pat` from `s`, from left to right.
pub fn remove_chars(s: &Vec<char>, pat: &Vec<char>) -> (out: Vec<char>)
    ensures
        out@ == remove_all(s@, pat@),
{
    let mut out: Vec<char> = Vec::new();
    let mut i: usize = 0;
    assert(s@.subrange(0, s.len() as int) == s@);
    assert(out@ + remove_all(s@, pat@) == remove_all(s@, pat@));
    while i < s.len()
        invariant
            i <= s.len(),
            out@ + remove_all(s@.subrange(i as int, s.len() as int), pat@) == remove_all(
                s@,
                pat@,
            ),
        decreases s.len() - i,
    {
        let ghost rest = s@.subrange(i as int, s.len() as int);
        if pat.len() > 0 && matches_at(s, i, pat) {
            proof {
                assert(rest.subrange(0, pat.len() as int) == s@.subrange(
                    i as int,
                    i + pat.len(),
                ));
                assert(rest.subrange(pat.len() as int, rest.len() as int) == s@.subrange(
                    i + pat.len(),
                    s.len() as int,
                ));
            }
            i += pat.len();
        } else {
            proof {
                let tail = s@.subrange(i + 1, s.len() as int);
                assert(rest.subrange(1, rest.len() as int) == tail);
                assert(rest == seq![rest[0]] + tail);
                if pat.len() == 0 || rest.len() < pat.len() {
                    assert(remove_all(rest, pat@) == rest);
                    assert(remove_all(tail, pat@) == tail);
                } else {
                    assert(rest.subrange(0, pat.len() as int) == s@.subrange(
                        i as int,
                        i + pat.len(),
                    ));
                }
                assert(remove_all(rest, pat@) == seq![s@[i as int]] + remove_all(tail, pat@));
                assert(out@.push(s@[i as int]) + remove_all(tail, pat@) == out@ + remove_all(
                    rest,
                    pat@,
                ));
            }
            out.push(s[i]);
            i += 1;
        }
    }
    assert(remove_all(s@.subrange(i as int, s.len() as int), pat@) == Seq::<char>::empty());
    out
}

/// Splits `s` into its lines.
pub fn lines_of(s: &Vec<char>) -> (lines: Vec<Vec<char>>)
    ensures
        views(lines@) == split_lines(s@),
{
    let mut lines: Vec<Vec<char>> = Vec::new();
    let mut current: Vec<char> = Vec::new();
    let mut start: usize = 0;
    let mut i: usize = 0;
    assert(s@.subrange(0, s.len() as int) == s@);
    assert(views(lines@) + split_lines(s@) == split_lines(s@));
    while i < s.len()
        invariant
            start <= i <= s.len(),
            current@ == s@.subrange(start as int, i as int),
            forall|j: int| start <= j < i ==> s@[j] != '\n',
            views(lines@) + split_lines(s@.subrange(start as int, s.len() as int)) == split_lines(
                s@,
            ),
        decreases s.len() - i,
    {
        let c = s[i];
        if c == '\n' {
            let ghost raw = current@;
            if current.len() > 0 && current[current.len() - 1] == '\r' {
                current.pop();
            }
            proof {
                assert(current@ == strip_cr(raw));
                let rest = s@.subrange(start as int, s.len() as int);
                assert forall|j: int| 0 <= j < i - start implies rest[j] != '\n' by {
                    assert(rest[j] == s@[start + j]);
                }
                lemma_index_of(rest, '\n', i - start);
                assert(rest.subrange(0, i - start) == raw);
                assert(rest.subrange(i - start + 1, rest.len() as int) == s@.subrange(
                    i + 1,
                    s.len() as int,
                ));
                assert(views(lines@).push(current@) + split_lines(
                    s@.subrange(i + 1, s.len() as int),
                ) == views(lines@) + split_lines(rest));
                assert(views(lines@.push(current)) == views(lines@).push(current@));
            }
            lines.push(current);
            current = Vec::new();
            start = i + 1;
        } else {
            current.push(c);
        }
        i += 1;
    }
    let ghost rest = s@.subrange(start as int, s.len() as int);
    if start < s.len() {
        proof {
            lemma_index_of(rest, '\n', rest.len() as int);
            assert(split_lines(rest) == seq![rest]);
            assert(views(lines@.push(current)) == views(lines@) + seq![rest]);
        }
        lines.push(current);
    } else {
        assert(split_lines(rest) == Seq::<Seq<char>>::empty());
    }
    lines
}

} // verus!
