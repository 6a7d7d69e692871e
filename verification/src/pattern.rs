//! Wildcard byte patterns such as `"90 ?? 90"` and the scan that finds
//! their first occurrence in a buffer.

use crate::hex::{byte_token, parse_byte_token};
use crate::text::{next_word, text_chars, words};
use vstd::prelude::*;
use vstd::slice::{slice_subrange, slice_to_vec};

verus! {

/// One position of a wildcard pattern.
#[derive(Clone, Copy, Debug, PartialEq, Eq, Structural)]
pub enum PatternToken {
    /// `??`: any byte.
    Any,
    /// Two hexadecimal digits: this byte and no other.
    Byte(u8),
    /// Anything else: no byte at all.
    Malformed,
}

impl PatternToken {
    /// Whether a buffer byte `b` is acceptable at this position.
    pub open spec fn admits(self, b: u8) -> bool {
        match self {
            PatternToken::Any => true,
            PatternToken::Byte(x) => x == b,
            PatternToken::Malformed => false,
        }
    }
}

/// The text of the wildcard token.
pub open spec fn wildcard_token() -> Seq<char> {
    seq!['?', '?']
}

/// The pattern position that a token denotes.
pub open spec fn pattern_token(token: Seq<char>) -> PatternToken {
    if token == wildcard_token() {
        PatternToken::Any
    } else {
        match byte_token(token) {
            Some(b) => PatternToken::Byte(b),
            None => PatternToken::Malformed,
        }
    }
}

/// The pattern that `text` denotes: one position for each of its
/// whitespace-separated tokens.
pub open spec fn pattern_of(text: Seq<char>) -> Seq<PatternToken> {
    words(text).map_values(|token: Seq<char>| pattern_token(token))
}

/// Whether `pattern` fits `data` at index `i`: the pattern lies within the
/// buffer and each position admits the byte it falls on.
pub open spec fn matches_at(data: Seq<u8>, pattern: Seq<PatternToken>, i: int) -> bool {
    &&& 0 <= i
    &&& i + pattern.len() <= data.len()
    &&& forall|j: int| 0 <= j < pattern.len() ==> (#[trigger] pattern[j]).admits(data[i + j])
}

/// Whether `i` is the leftmost index at which `pattern` fits `data`.
pub open spec fn is_first_match(data: Seq<u8>, pattern: Seq<PatternToken>, i: int) -> bool {
    &&& matches_at(data, pattern, i)
    &&& forall|k: int| 0 <= k < i ==> !matches_at(data, pattern, k)
}

/// Whether `pattern` fits `data` nowhere.
pub open spec fn no_match(data: Seq<u8>, pattern: Seq<PatternToken>) -> bool {
    forall|k: int| !matches_at(data, pattern, k)
}

/// The leftmost index at which `pattern` fits `data`, if it fits anywhere.
pub open spec fn first_match(data: Seq<u8>, pattern: Seq<PatternToken>) -> Option<int> {
    if exists|i: int| is_first_match(data, pattern, i) {
        Some(choose|i: int| is_first_match(data, pattern, i))
    } else {
        None
    }
}

/// Reads a wildcard pattern: `??` for any byte, two hexadecimal digits for
/// a given byte. Any other token is kept as [`PatternToken::Malformed`].
pub fn parse_pattern(pattern: &str) -> (r: Vec<PatternToken>)
    ensures
        r@ == pattern_of(pattern@),
{
    let s = text_chars(pattern);
    let mut tokens: Vec<PatternToken> = Vec::new();
    let mut pos: usize = 0;
    let ghost mut seen: Seq<Seq<char>> = Seq::empty();
    proof {
        assert(s@.skip(0) =~= s@);
        assert(seen + words(s@) =~= words(s@));
    }
    loop
        invariant
            s@ == pattern@,
            pos <= s.len(),
            words(s@) == seen + words(s@.skip(pos as int)),
            tokens@ == seen.map_values(|token: Seq<char>| pattern_token(token)),
        decreases s.len() - pos,
    {
        match next_word(&s, pos) {
            None => {
                proof {
                    assert(words(s@) =~= seen);
                }
                return tokens;
            },
            Some((a, b)) => {
                let ghost token = s@.subrange(a as int, b as int);
                let wild = b - a == 2 && s[a] == '?' && s[a + 1] == '?';
                proof {
                    if wild {
                        assert(token =~= wildcard_token());
                    } else if b - a == 2 {
                        assert(token[0] == s@[a as int] && token[1] == s@[a + 1]);
                    }
                    assert(wild == (token == wildcard_token()));
                }
                let parsed = if wild {
                    PatternToken::Any
                } else {
                    match parse_byte_token(&s, a, b) {
                        Some(value) => PatternToken::Byte(value),
                        None => PatternToken::Malformed,
                    }
                };
                proof {
                    let grown = seen.push(token);
                    assert(words(s@) =~= grown + words(s@.skip(b as int)));
                    assert(tokens@.push(parsed) =~= grown.map_values(
                        |token: Seq<char>| pattern_token(token),
                    ));
                    seen = grown;
                }
                tokens.push(parsed);
                pos = b;
            },
        }
    }
}

/// Whether `pattern` fits `data` at index `i`.
pub fn pattern_fits(data: &[u8], pattern: &Vec<PatternToken>, i: usize) -> (r: bool)
    requires
        i + pattern.len() <= data.len(),
    ensures
        r == matches_at(data@, pattern@, i as int),
{
    let mut j: usize = 0;
    while j < pattern.len()
        invariant
            j <= pattern.len(),
            i + pattern.len() <= data.len(),
            forall|k: int| 0 <= k < j ==> (#[trigger] pattern@[k]).admits(data@[i + k]),
        decreases pattern.len() - j,
    {
        let fits = match pattern[j] {
            PatternToken::Any => true,
            PatternToken::Byte(x) => x == data[i + j],
            PatternToken::Malformed => false,
        };
        if !fits {
            assert(!pattern@[j as int].admits(data@[i + j]));
            return false;
        }
        j += 1;
    }
    true
}

/// Finds the leftmost index at which `pattern` fits `data`.
pub fn find_pattern(data: &[u8], pattern: &Vec<PatternToken>) -> (r: Option<usize>)
    ensures
        match r {
            Some(i) => is_first_match(data@, pattern@, i as int),
            None => no_match(data@, pattern@),
        },
{
    if pattern.len() > data.len() {
        return None;
    }
    let last: usize = data.len() - pattern.len();
    let mut i: usize = 0;
    loop
        invariant
            last == data.len() - pattern.len(),
            i <= last,
            forall|k: int| 0 <= k < i ==> !matches_at(data@, pattern@, k),
        decreases last - i,
    {
        if pattern_fits(data, pattern, i) {
            return Some(i);
        }
        if i == last {
            return None;
        }
        i += 1;
    }
}

/// Scans `data` from the left for the wildcard pattern `pattern` and
/// returns the index of its first occurrence together with the bytes that
/// stand there.
///
/// A pattern without tokens fits at index 0. A pattern that is longer than
/// the buffer, or that holds a malformed token, fits nowhere.
pub fn wildcard_pattern_scan(data: &[u8], pattern: &str) -> (r: Option<(usize, Vec<u8>)>)
    ensures
        match r {
            Some((i, bytes)) => {
                &&& is_first_match(data@, pattern_of(pattern@), i as int)
                &&& first_match(data@, pattern_of(pattern@)) == Some(i as int)
                &&& bytes@ == data@.subrange(i as int, i + pattern_of(pattern@).len())
            },
            None => {
                &&& no_match(data@, pattern_of(pattern@))
                &&& first_match(data@, pattern_of(pattern@)) is None
            },
        },
{
    let tokens = parse_pattern(pattern);
    match find_pattern(data, &tokens) {
        Some(i) => {
            proof {
                lemma_first_match_is(data@, tokens@, i as int);
            }
            assert(i + tokens.len() <= data.len());
            let matched = slice_to_vec(slice_subrange(data, i, i + tokens.len()));
            Some((i, matched))
        },
        None => {
            proof {
                lemma_no_match_is(data@, tokens@);
            }
            None
        },
    }
}

/// A pattern that holds a malformed token fits nowhere.
pub proof fn lemma_malformed_never_matches(data: Seq<u8>, pattern: Seq<PatternToken>, j: int)
    requires
        0 <= j < pattern.len(),
        pattern[j] == PatternToken::Malformed,
    ensures
        no_match(data, pattern),
{
    assert forall|k: int| !matches_at(data, pattern, k) by {
        if matches_at(data, pattern, k) {
            assert(pattern[j].admits(data[k + j]));
        }
    }
}

/// The leftmost match is unique, and [`first_match`] names it.
pub proof fn lemma_first_match_is(data: Seq<u8>, pattern: Seq<PatternToken>, i: int)
    requires
        is_first_match(data, pattern, i),
    ensures
        first_match(data, pattern) == Some(i),
{
    let k = choose|k: int| is_first_match(data, pattern, k);
    assert(is_first_match(data, pattern, k));
    if k < i {
        assert(!matches_at(data, pattern, k));
    } else if i < k {
        assert(!matches_at(data, pattern, i));
    }
}

/// Where the pattern fits nowhere, [`first_match`] is `None`.
pub proof fn lemma_no_match_is(data: Seq<u8>, pattern: Seq<PatternToken>)
    requires
        no_match(data, pattern),
    ensures
        first_match(data, pattern) is None,
{
    assert forall|i: int| !is_first_match(data, pattern, i) by {
        assert(!matches_at(data, pattern, i));
    }
}

} // verus!
