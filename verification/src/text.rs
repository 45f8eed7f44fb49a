//! The line scanner: whitespace, trimming, lines and words of a source text.
//!
//! Every function here has the shape of its namesake on `str`, and states over
//! the character sequence of its argument what it returns.

use vstd::prelude::*;
use vstd::string::*;

verus! {

/// Whether `c` is one of the Unicode `White_Space` code points.
pub open spec fn is_space(c: char) -> bool {
    ||| ('\u{9}' <= c && c <= '\u{d}')
    ||| c == ' '
    ||| c == '\u{85}'
    ||| c == '\u{a0}'
    ||| c == '\u{1680}'
    ||| ('\u{2000}' <= c && c <= '\u{200a}')
    ||| c == '\u{2028}'
    ||| c == '\u{2029}'
    ||| c == '\u{202f}'
    ||| c == '\u{205f}'
    ||| c == '\u{3000}'
}

/// `s` without its leading whitespace.
pub open spec fn trimmed_start(s: Seq<char>) -> Seq<char>
    decreases s.len(),
{
    if s.len() > 0 && is_space(s[0]) {
        trimmed_start(s.drop_first())
    } else {
        s
    }
}

/// `s` without its trailing whitespace.
pub open spec fn trimmed_end(s: Seq<char>) -> Seq<char>
    decreases s.len(),
{
    if s.len() > 0 && is_space(s.last()) {
        trimmed_end(s.drop_last())
    } else {
        s
    }
}

/// `s` without leading and trailing whitespace.
pub open spec fn trimmed(s: Seq<char>) -> Seq<char> {
    trimmed_end(trimmed_start(s))
}

/// The index of the first `c` in `s`, or the length of `s` if there is none.
pub open spec fn index_of(s: Seq<char>, c: char) -> int
    decreases s.len(),
{
    if s.len() == 0 || s[0] == c {
        0
    } else {
        1 + index_of(s.drop_first(), c)
    }
}

/// The lines of `s`: the pieces between line feeds. A line feed ends a line,
/// so a text that ends in one has no empty last line.
pub open spec fn lines_of(s: Seq<char>) -> Seq<Seq<char>>
    decreases s.len(),
{
    if s.len() == 0 {
        Seq::empty()
    } else {
        let k = index_of(s, '\n');
        if 0 <= k < s.len() {
            seq![s.take(k)] + lines_of(s.skip(k + 1))
        } else {
            seq![s]
        }
    }
}

/// The trimmed lines of `s`.
pub open spec fn trimmed_lines_of(s: Seq<char>) -> Seq<Seq<char>> {
    Seq::new(lines_of(s).len(), |i: int| trimmed(lines_of(s)[i]))
}

/// The length of the longest prefix of `s` that holds no whitespace.
pub open spec fn word_len(s: Seq<char>) -> int
    decreases s.len(),
{
    if s.len() == 0 || is_space(s[0]) {
        0
    } else {
        1 + word_len(s.drop_first())
    }
}

/// The words of `s`: its maximal runs of characters that are not whitespace.
pub open spec fn words_of(s: Seq<char>) -> Seq<Seq<char>>
    decreases s.len(),
{
    if s.len() == 0 {
        Seq::empty()
    } else if is_space(s[0]) {
        words_of(s.drop_first())
    } else {
        let k = word_len(s);
        if 0 < k <= s.len() {
            seq![s.take(k)] + words_of(s.skip(k))
        } else {
            Seq::empty()
        }
    }
}

/// `index_of` is the one position before which no `c` stands and at which one
/// does, or the end.
pub proof fn lemma_index_of(s: Seq<char>, c: char, k: int)
    requires
        0 <= k <= s.len(),
        forall|j: int| 0 <= j < k ==> s[j] != c,
        k < s.len() ==> s[k] == c,
    ensures
        index_of(s, c) == k,
    decreases s.len(),
{
    if s.len() == 0 || s[0] == c {
    } else {
        lemma_index_of(s.drop_first(), c, k - 1);
    }
}

/// `word_len` is the one position before which no whitespace stands and at
/// which some does, or the end.
pub proof fn lemma_word_len(s: Seq<char>, k: int)
    requires
        0 <= k <= s.len(),
        forall|j: int| 0 <= j < k ==> !is_space(s[j]),
        k < s.len() ==> is_space(s[k]),
    ensures
        word_len(s) == k,
    decreases s.len(),
{
    if s.len() == 0 || is_space(s[0]) {
    } else {
        lemma_word_len(s.drop_first(), k - 1);
    }
}

/// A text that is not empty and holds no line feed is one line.
pub proof fn lemma_one_line(s: Seq<char>)
    requires
        s.len() > 0,
        forall|i: int| 0 <= i < s.len() ==> s[i] != '\n',
    ensures
        lines_of(s) == seq![s],
{
    lemma_index_of(s, '\n', s.len() as int);
}

/// Trimming changes nothing in a text that begins and ends with a character
/// that is not whitespace.
pub proof fn lemma_trimmed_keeps(s: Seq<char>)
    requires
        s.len() > 0,
        !is_space(s[0]),
        !is_space(s.last()),
    ensures
        trimmed(s) == s,
{
}

/// Whitespace in front of a text adds no word.
pub proof fn lemma_words_behind_space(c: char, rest: Seq<char>)
    requires
        is_space(c),
    ensures
        words_of(seq![c] + rest) == words_of(rest),
{
    assert((seq![c] + rest).drop_first() =~= rest);
}

/// A run of characters that are not whitespace, followed by whitespace or by
/// nothing, is the first word.
pub proof fn lemma_words_first(word: Seq<char>, rest: Seq<char>)
    requires
        word.len() > 0,
        forall|i: int| 0 <= i < word.len() ==> !is_space(word[i]),
        rest.len() > 0 ==> is_space(rest[0]),
    ensures
        words_of(word + rest) == seq![word] + words_of(rest),
{
    let s = word + rest;
    lemma_word_len(s, word.len() as int);
    assert(s.take(word.len() as int) =~= word);
    assert(s.skip(word.len() as int) =~= rest);
}

/// No word is empty.
pub proof fn lemma_words_are_not_empty(s: Seq<char>)
    ensures
        forall|i: int| 0 <= i < words_of(s).len() ==> (#[trigger] words_of(s)[i]).len() > 0,
    decreases s.len(),
{
    let words = words_of(s);
    if s.len() == 0 {
    } else if is_space(s[0]) {
        let rest = words_of(s.drop_first());
        lemma_words_are_not_empty(s.drop_first());
        assert(words == rest);
        assert forall|i: int| 0 <= i < words.len() implies (#[trigger] words[i]).len() > 0 by {
            assert(rest[i].len() > 0);
        }
    } else {
        let k = word_len(s);
        if 0 < k <= s.len() {
            let rest = words_of(s.skip(k));
            lemma_words_are_not_empty(s.skip(k));
            assert(words == seq![s.take(k)] + rest);
            assert forall|i: int| 0 <= i < words.len() implies (#[trigger] words[i]).len() > 0 by {
                if i > 0 {
                    assert(words[i] == rest[i - 1]);
                    assert(rest[i - 1].len() > 0);
                } else {
                    assert(words[0] == s.take(k));
                }
            }
        }
    }
}

/// The character sequences of a list of string slices.
pub open spec fn views(v: Seq<&str>) -> Seq<Seq<char>> {
    Seq::new(v.len(), |i: int| v[i]@)
}

/// Executable test for `is_space`.
pub fn char_is_space(c: char) -> (b: bool)
    ensures
        b == is_space(c),
{
    (c >= '\u{9}' && c <= '\u{d}') || c == ' ' || c == '\u{85}' || c == '\u{a0}' || c == '\u{1680}'
        || (c >= '\u{2000}' && c <= '\u{200a}') || c == '\u{2028}' || c == '\u{2029}' || c
        == '\u{202f}' || c == '\u{205f}' || c == '\u{3000}'
}

/// The characters of `s`, in order.
pub fn to_chars(s: &str) -> (v: Vec<char>)
    ensures
        v@ == s@,
{
    let mut v: Vec<char> = Vec::new();
    for c in it: s.chars()
        invariant
            v@ == it.seq().take(it.index()),
            it.seq() == s@,
    {
        v.push(c);
    }
    v
}

/// Whether two string slices hold the same characters.
pub fn str_eq(a: &str, b: &str) -> (r: bool)
    ensures
        r == (a@ == b@),
{
    let x = a.to_owned();
    let y = b.to_owned();
    x == y
}

/// The slice of `s` between its first and its last character that is not
/// whitespace.
pub fn trim<'a>(s: &'a str) -> (r: &'a str)
    ensures
        r@ == trimmed(s@),
{
    let v = to_chars(s);
    let n = v.len();
    let mut a: usize = 0;
    assert(v@.skip(0) =~= v@);
    while a < n && char_is_space(v[a])
        invariant
            a <= n,
            n == v@.len(),
            trimmed_start(v@) == trimmed_start(v@.skip(a as int)),
        decreases n - a,
    {
        assert(v@.skip(a as int).drop_first() =~= v@.skip(a as int + 1));
        a = a + 1;
    }
    assert(v@.skip(a as int) =~= v@.subrange(a as int, n as int));
    let mut b: usize = n;
    assert(trimmed_start(v@.skip(a as int)) == v@.skip(a as int));
    while b > a && char_is_space(v[b - 1])
        invariant
            a <= b <= n,
            n == v@.len(),
            trimmed(v@) == trimmed_end(v@.subrange(a as int, b as int)),
        decreases b,
    {
        assert(v@.subrange(a as int, b as int).drop_last() =~= v@.subrange(a as int, b as int - 1));
        b = b - 1;
    }
    s.substring_char(a, b)
}

/// The lines of `s`, as `lines_of` defines them.
pub fn lines<'a>(s: &'a str) -> (r: Vec<&'a str>)
    ensures
        views(r@) == lines_of(s@),
{
    let v = to_chars(s);
    let n = v.len();
    let mut out: Vec<&'a str> = Vec::new();
    let mut start: usize = 0;
    assert(v@.skip(0) =~= v@);
    while start < n
        invariant
            start <= n,
            n == v@.len(),
            v@ == s@,
            views(out@) + lines_of(v@.skip(start as int)) == lines_of(v@),
        decreases n - start,
    {
        let mut e: usize = start;
        while e < n && v[e] != '\n'
            invariant
                start <= e <= n,
                n == v@.len(),
                forall|j: int| start <= j < e ==> v@[j] != '\n',
            decreases n - e,
        {
            e = e + 1;
        }
        let ghost rest = v@.skip(start as int);
        let ghost before = views(out@);
        proof {
            lemma_index_of(rest, '\n', e - start);
            assert(rest.take(e - start) =~= v@.subrange(start as int, e as int));
        }
        let line = s.substring_char(start, e);
        out.push(line);
        assert(views(out@) =~= before + seq![line@]);
        if e < n {
            assert(rest.skip(e - start + 1) =~= v@.skip(e as int + 1));
            assert(lines_of(rest) == seq![line@] + lines_of(v@.skip(e as int + 1)));
            assert(views(out@) + lines_of(v@.skip(e as int + 1)) =~= before + lines_of(rest));
            start = e + 1;
        } else {
            assert(rest.take(e - start) =~= rest);
            assert(v@.skip(n as int) =~= Seq::<char>::empty());
            assert(lines_of(rest) =~= seq![line@]);
            assert(views(out@) + lines_of(v@.skip(n as int)) =~= before + lines_of(rest));
            start = n;
        }
    }
    assert(v@.skip(n as int) =~= Seq::<char>::empty());
    assert(views(out@) + Seq::<Seq<char>>::empty() =~= views(out@));
    out
}

/// The words of `s`, as `words_of` defines them.
pub fn split_whitespace<'a>(s: &'a str) -> (r: Vec<&'a str>)
    ensures
        views(r@) == words_of(s@),
{
    let v = to_chars(s);
    let n = v.len();
    let mut out: Vec<&'a str> = Vec::new();
    let mut start: usize = 0;
    assert(v@.skip(0) =~= v@);
    while start < n
        invariant
            start <= n,
            n == v@.len(),
            v@ == s@,
            views(out@) + words_of(v@.skip(start as int)) == words_of(v@),
        decreases n - start,
    {
        let ghost rest = v@.skip(start as int);
        if char_is_space(v[start]) {
            assert(rest.drop_first() =~= v@.skip(start as int + 1));
            start = start + 1;
        } else {
            let mut e: usize = start + 1;
            while e < n && !char_is_space(v[e])
                invariant
                    start < e <= n,
                    n == v@.len(),
                    forall|j: int| start <= j < e ==> !is_space(v@[j]),
                decreases n - e,
            {
                e = e + 1;
            }
            let ghost before = views(out@);
            proof {
                lemma_word_len(rest, e - start);
                assert(rest.take(e - start) =~= v@.subrange(start as int, e as int));
                assert(rest.skip(e - start) =~= v@.skip(e as int));
            }
            let word = s.substring_char(start, e);
            out.push(word);
            assert(views(out@) =~= before + seq![word@]);
            assert(words_of(rest) == seq![word@] + words_of(v@.skip(e as int)));
            assert(views(out@) + words_of(v@.skip(e as int)) =~= before + words_of(rest));
            start = e;
        }
    }
    assert(v@.skip(n as int) =~= Seq::<char>::empty());
    assert(views(out@) + Seq::<Seq<char>>::empty() =~= views(out@));
    out
}

/// The trimmed lines of `s`.
pub fn trimmed_lines<'a>(s: &'a str) -> (r: Vec<&'a str>)
    ensures
        views(r@) == trimmed_lines_of(s@),
{
    let all = lines(s);
    let mut out: Vec<&'a str> = Vec::new();
    let mut i: usize = 0;
    while i < all.len()
        invariant
            i <= all@.len(),
            views(all@) == lines_of(s@),
            out@.len() == i,
            forall|j: int| 0 <= j < i ==> (#[trigger] out@[j])@ == trimmed(lines_of(s@)[j]),
        decreases all.len() - i,
    {
        assert(views(all@)[i as int] == all@[i as int]@);
        out.push(trim(all[i]));
        i = i + 1;
    }
    assert(views(out@) =~= trimmed_lines_of(s@));
    out
}

/// The first position at or behind `from` at which `c` stands in `v`, or the
/// length of `v` if there is none.
pub fn find_char(v: &Vec<char>, from: usize, c: char) -> (k: usize)
    requires
        from <= v@.len(),
    ensures
        from <= k <= v@.len(),
        k - from == index_of(v@.skip(from as int), c),
        k < v@.len() ==> v@[k as int] == c,
        forall|j: int| from <= j < k ==> v@[j] != c,
{
    let n = v.len();
    let mut k: usize = from;
    while k < n && v[k] != c
        invariant
            from <= k <= n,
            n == v@.len(),
            forall|j: int| from <= j < k ==> v@[j] != c,
        decreases n - k,
    {
        k = k + 1;
    }
    proof {
        lemma_index_of(v@.skip(from as int), c, k - from);
    }
    k
}

/// Whether the character `c` occurs in `s`.
pub fn contains_char(s: &str, c: char) -> (r: bool)
    ensures
        r == s@.contains(c),
{
    let v = to_chars(s);
    let mut i: usize = 0;
    while i < v.len()
        invariant
            i <= v@.len(),
            v@ == s@,
            forall|j: int| 0 <= j < i ==> v@[j] != c,
        decreases v.len() - i,
    {
        if v[i] == c {
            return true;
        }
        i = i + 1;
    }
    false
}

} // verus!
