//! Character-level text helpers: whitespace, words and substring search.
//!
//! Everything here works on the `Seq<char>` view of a string, so the
//! contracts are independent of how the text is encoded in memory.

use vstd::prelude::*;

verus! {

/// Whether `c` separates words. These are the code points that carry the
/// Unicode `White_Space` property.
pub open spec fn is_whitespace(c: char) -> bool {
    let n = c as u32;
    ||| 0x09 <= n <= 0x0D
    ||| n == 0x20
    ||| n == 0x85
    ||| n == 0xA0
    ||| n == 0x1680
    ||| 0x2000 <= n <= 0x200A
    ||| n == 0x2028
    ||| n == 0x2029
    ||| n == 0x202F
    ||| n == 0x205F
    ||| n == 0x3000
}

/// Length of the longest prefix of `s` that holds no whitespace.
pub open spec fn word_len(s: Seq<char>) -> nat
    decreases s.len(),
{
    if s.len() == 0 || is_whitespace(s[0]) {
        0
    } else {
        1 + word_len(s.skip(1))
    }
}

/// The words of `s`: its maximal runs of non-whitespace characters, from
/// left to right.
pub open spec fn words(s: Seq<char>) -> Seq<Seq<char>>
    decreases s.len(),
    via words_terminates
{
    if s.len() == 0 {
        Seq::empty()
    } else if is_whitespace(s[0]) {
        words(s.skip(1))
    } else {
        seq![s.take(word_len(s) as int)] + words(s.skip(word_len(s) as int))
    }
}

#[via_fn]
proof fn words_terminates(s: Seq<char>) {
    lemma_word_len_bounds(s);
}

/// A word never runs past the end of the text, it holds no whitespace, and
/// it stops at whitespace or at the end.
pub proof fn lemma_word_len_bounds(s: Seq<char>)
    ensures
        word_len(s) <= s.len(),
        s.len() > 0 && !is_whitespace(s[0]) ==> word_len(s) >= 1,
        forall|k: int| 0 <= k < word_len(s) ==> !is_whitespace(#[trigger] s[k]),
        word_len(s) < s.len() ==> is_whitespace(s[word_len(s) as int]),
    decreases s.len(),
{
    if s.len() == 0 || is_whitespace(s[0]) {
    } else {
        let t = s.skip(1);
        lemma_word_len_bounds(t);
        assert forall|k: int| 0 <= k < word_len(s) implies !is_whitespace(#[trigger] s[k]) by {
            if k > 0 {
                assert(s[k] == t[k - 1]);
            }
        }
        if word_len(s) < s.len() {
            assert(s[word_len(s) as int] == t[word_len(t) as int]);
        }
    }
}

/// Whether `word` holds at least one character and no whitespace.
pub open spec fn is_word(word: Seq<char>) -> bool {
    &&& word.len() > 0
    &&& forall|k: int| 0 <= k < word.len() ==> !is_whitespace(#[trigger] word[k])
}

/// Every word holds at least one character and no whitespace.
pub proof fn lemma_words_are_solid(s: Seq<char>)
    ensures
        forall|i: int| 0 <= i < words(s).len() ==> is_word(#[trigger] words(s)[i]),
    decreases s.len(),
{
    if s.len() == 0 {
        assert(words(s).len() == 0);
    } else if is_whitespace(s[0]) {
        lemma_words_are_solid(s.skip(1));
        assert(words(s) == words(s.skip(1)));
    } else {
        lemma_word_len_bounds(s);
        let n = word_len(s) as int;
        lemma_words_are_solid(s.skip(n));
        let first = s.take(n);
        let rest = words(s.skip(n));
        assert(is_word(first)) by {
            assert forall|k: int| 0 <= k < first.len() implies !is_whitespace(
                #[trigger] first[k],
            ) by {
                assert(first[k] == s[k]);
            }
        }
        assert(words(s) == seq![first] + rest);
        assert forall|i: int| 0 <= i < words(s).len() implies is_word(#[trigger] words(s)[i]) by {
            if i > 0 {
                assert(words(s)[i] == rest[i - 1]);
                assert(is_word(rest[i - 1]));
            } else {
                assert(words(s)[0] == first);
            }
        }
    }
}

/// A text that begins with whitespace has the words of what follows it.
pub proof fn lemma_words_skip_whitespace(c: char, rest: Seq<char>)
    requires
        is_whitespace(c),
    ensures
        words(seq![c] + rest) == words(rest),
{
    let s = seq![c] + rest;
    assert(s[0] == c);
    assert(s.skip(1) =~= rest);
}

/// A whitespace-free run that is followed by whitespace, or by nothing, is
/// the first word of the text.
pub proof fn lemma_words_first(word: Seq<char>, rest: Seq<char>)
    requires
        is_word(word),
        rest.len() > 0 ==> is_whitespace(rest[0]),
    ensures
        words(word + rest) == seq![word] + words(rest),
{
    let s = word + rest;
    lemma_run_length(word, rest, 0);
    assert(s.skip(0) =~= s);
    assert(s[0] == word[0]);
    assert(s.take(word.len() as int) =~= word);
    assert(s.skip(word.len() as int) =~= rest);
}

/// Within a whitespace-free run, the word that starts at index `from`
/// ends where the run ends.
proof fn lemma_run_length(word: Seq<char>, rest: Seq<char>, from: int)
    requires
        0 <= from <= word.len(),
        forall|k: int| 0 <= k < word.len() ==> !is_whitespace(#[trigger] word[k]),
        rest.len() > 0 ==> is_whitespace(rest[0]),
    ensures
        word_len((word + rest).skip(from)) == word.len() - from,
    decreases word.len() - from,
{
    let s = word + rest;
    let tail = s.skip(from);
    if from == word.len() {
        assert(tail =~= rest);
    } else {
        assert(tail[0] == word[from]);
        assert(tail.skip(1) =~= s.skip(from + 1));
        lemma_run_length(word, rest, from + 1);
    }
}

/// Whether `needle` stands in `hay` at index `i`.
pub open spec fn occurs_at(hay: Seq<char>, needle: Seq<char>, i: int) -> bool {
    &&& 0 <= i
    &&& i + needle.len() <= hay.len()
    &&& hay.subrange(i, i + needle.len()) == needle
}

/// Whether `needle` is a contiguous part of `hay`. The empty text is part
/// of every text.
pub open spec fn occurs_in(hay: Seq<char>, needle: Seq<char>) -> bool {
    exists|i: int| occurs_at(hay, needle, i)
}

/// Whether `hay` begins with `prefix`.
pub open spec fn starts_with(hay: Seq<char>, prefix: Seq<char>) -> bool {
    occurs_at(hay, prefix, 0)
}

/// The contents of an optional string.
pub open spec fn opt_text(text: Option<String>) -> Option<Seq<char>> {
    match text {
        Some(t) => Some(t@),
        None => None,
    }
}

/// The contents of a list of strings.
pub open spec fn line_views(lines: Seq<String>) -> Seq<Seq<char>> {
    lines.map_values(|line: String| line@)
}

/// The characters of `s`, one by one.
pub fn text_chars(s: &str) -> (v: Vec<char>)
    ensures
        v@ == s@,
{
    let mut v: Vec<char> = Vec::new();
    let chars = s.chars();
    for c in it: chars
        invariant
            it.seq() == s@,
            v@ == s@.take(it.index()),
    {
        v.push(c);
    }
    v
}

/// Decides [`is_whitespace`].
pub fn whitespace(c: char) -> (r: bool)
    ensures
        r == is_whitespace(c),
{
    let n: u32 = c as u32;
    (0x09 <= n && n <= 0x0D) || n == 0x20 || n == 0x85 || n == 0xA0 || n == 0x1680 || (0x2000 <= n
        && n <= 0x200A) || n == 0x2028 || n == 0x2029 || n == 0x202F || n == 0x205F || n == 0x3000
}

/// Finds the first word of `s` that starts at or after `from`.
///
/// Returns the half-open range of the word, or `None` when only whitespace
/// is left.
pub fn next_word(s: &Vec<char>, from: usize) -> (r: Option<(usize, usize)>)
    requires
        from <= s.len(),
    ensures
        match r {
            Some((a, b)) => {
                &&& from <= a < b <= s.len()
                &&& words(s@.skip(from as int)) == seq![s@.subrange(a as int, b as int)] + words(
                    s@.skip(b as int),
                )
            },
            None => words(s@.skip(from as int)) == Seq::<Seq<char>>::empty(),
        },
{
    let mut a: usize = from;
    while a < s.len() && whitespace(s[a])
        invariant
            from <= a <= s.len(),
            words(s@.skip(from as int)) == words(s@.skip(a as int)),
        decreases s.len() - a,
    {
        proof {
            assert(s@.skip(a as int).skip(1) =~= s@.skip(a as int + 1));
        }
        a += 1;
    }
    if a == s.len() {
        return None;
    }
    let ghost rest = s@.skip(a as int);
    let mut b: usize = a + 1;
    proof {
        assert(rest.skip(1) =~= s@.skip(b as int));
    }
    while b < s.len() && !whitespace(s[b])
        invariant
            a < b <= s.len(),
            rest == s@.skip(a as int),
            !is_whitespace(rest[0]),
            word_len(rest) == (b - a) + word_len(s@.skip(b as int)),
        decreases s.len() - b,
    {
        proof {
            assert(s@.skip(b as int).skip(1) =~= s@.skip(b as int + 1));
        }
        b += 1;
    }
    proof {
        assert(word_len(rest) == b - a);
        assert(rest.take((b - a) as int) =~= s@.subrange(a as int, b as int));
        assert(rest.skip((b - a) as int) =~= s@.skip(b as int));
    }
    Some((a, b))
}

/// Whether `needle` stands in `hay` at index `i`.
pub fn matches_at(hay: &Vec<char>, needle: &Vec<char>, i: usize) -> (r: bool)
    requires
        i + needle.len() <= hay.len(),
    ensures
        r == occurs_at(hay@, needle@, i as int),
{
    let mut j: usize = 0;
    while j < needle.len()
        invariant
            j <= needle.len(),
            i + needle.len() <= hay.len(),
            forall|k: int| 0 <= k < j ==> hay@[i + k] == needle@[k],
        decreases needle.len() - j,
    {
        if hay[i + j] != needle[j] {
            proof {
                assert(hay@.subrange(i as int, i + needle.len())[j as int] == hay@[i + j]);
            }
            return false;
        }
        j += 1;
    }
    proof {
        assert(hay@.subrange(i as int, i + needle.len()) =~= needle@);
    }
    true
}

/// Whether `needle` is a contiguous part of `hay`.
pub fn contains(hay: &Vec<char>, needle: &Vec<char>) -> (r: bool)
    ensures
        r == occurs_in(hay@, needle@),
{
    if needle.len() > hay.len() {
        return false;
    }
    let last: usize = hay.len() - needle.len();
    let mut i: usize = 0;
    loop
        invariant
            last == hay.len() - needle.len(),
            i <= last,
            forall|k: int| 0 <= k < i ==> !occurs_at(hay@, needle@, k),
        decreases last - i,
    {
        if matches_at(hay, needle, i) {
            return true;
        }
        if i == last {
            return false;
        }
        i += 1;
    }
}

} // verus!
