//! Hexadecimal text: byte strings such as `"90 90 EC 04"` and literal
//! offsets such as `"0x1A2B"`.

use crate::text::{
    is_whitespace,
    is_word,
    lemma_words_first,
    lemma_words_skip_whitespace,
    next_word,
    starts_with,
    text_chars,
    words,
};
use vstd::prelude::*;

verus! {

/// Value of one hexadecimal digit of either case; `None` for any other
/// character.
pub open spec fn hex_digit_value(c: char) -> Option<u8> {
    if '0' <= c <= '9' {
        Some((c as u8 - '0' as u8) as u8)
    } else if 'a' <= c <= 'f' {
        Some((c as u8 - 'a' as u8 + 10) as u8)
    } else if 'A' <= c <= 'F' {
        Some((c as u8 - 'A' as u8 + 10) as u8)
    } else {
        None
    }
}

/// The byte that a token spells: exactly two hexadecimal digits, the high
/// one first.
pub open spec fn byte_token(token: Seq<char>) -> Option<u8> {
    if token.len() == 2 {
        match (hex_digit_value(token[0]), hex_digit_value(token[1])) {
            (Some(hi), Some(lo)) => Some((16 * hi + lo) as u8),
            _ => None,
        }
    } else {
        None
    }
}

/// Whether every token spells a byte.
pub open spec fn all_byte_tokens(tokens: Seq<Seq<char>>) -> bool {
    forall|i: int| 0 <= i < tokens.len() ==> (#[trigger] byte_token(tokens[i])) is Some
}

/// The bytes that a list of byte tokens spells.
pub open spec fn token_bytes(tokens: Seq<Seq<char>>) -> Seq<u8> {
    Seq::new(tokens.len(), |i: int| byte_token(tokens[i]).unwrap())
}

/// The bytes of a hex byte string: its whitespace-separated tokens, each
/// of two hexadecimal digits. `None` where some token is anything else.
pub open spec fn hex_bytes(text: Seq<char>) -> Option<Seq<u8>> {
    if all_byte_tokens(words(text)) {
        Some(token_bytes(words(text)))
    } else {
        None
    }
}

/// Value of one digit in base `radix`, which is at most 16: a hexadecimal
/// digit whose value is below the base.
pub open spec fn digit_value(c: char, radix: nat) -> Option<u8> {
    match hex_digit_value(c) {
        Some(d) => if d < radix {
            Some(d)
        } else {
            None
        },
        None => None,
    }
}

/// Whether `digits` holds digits of base `radix` only.
pub open spec fn all_digits(digits: Seq<char>, radix: nat) -> bool {
    forall|i: int| 0 <= i < digits.len() ==> (#[trigger] digit_value(digits[i], radix)) is Some
}

/// The number that `digits` spells in base `radix`, most significant digit
/// first. A character that is no digit counts as zero.
pub open spec fn digits_value(digits: Seq<char>, radix: nat) -> nat
    decreases digits.len(),
{
    if digits.len() == 0 {
        0
    } else {
        let low: nat = match digit_value(digits.last(), radix) {
            Some(d) => d as nat,
            None => 0,
        };
        radix * digits_value(digits.drop_last(), radix) + low
    }
}

/// The machine-sized number that `digits` spells in base `radix`: there is
/// at least one digit, all are digits of that base, and the value fits in
/// `usize`.
pub open spec fn number(digits: Seq<char>, radix: nat) -> Option<usize> {
    if digits.len() > 0 && all_digits(digits, radix) && digits_value(digits, radix) <= usize::MAX {
        Some(digits_value(digits, radix) as usize)
    } else {
        None
    }
}

/// The machine-sized number that `digits` spells in base 16.
pub open spec fn hex_number(digits: Seq<char>) -> Option<usize> {
    number(digits, 16)
}

/// What is left of a literal offset once one leading `0x` is taken away.
pub open spec fn offset_digits(text: Seq<char>) -> Seq<char> {
    if starts_with(text, seq!['0', 'x']) {
        text.skip(2)
    } else {
        text
    }
}

/// The offset that a literal such as `"0x1A2B"` or `"1A2B"` denotes.
pub open spec fn literal_offset(text: Seq<char>) -> Option<usize> {
    hex_number(offset_digits(text))
}

/// The upper-case hexadecimal digit of a value below 16.
pub open spec fn upper_hex_digit(value: u8) -> char
    recommends
        value < 16,
{
    if value < 10 {
        ('0' as u8 + value) as char
    } else {
        ('A' as u8 + (value - 10)) as char
    }
}

/// The two upper-case hexadecimal digits of a byte, the high one first.
pub open spec fn hex_pair(byte: u8) -> Seq<char> {
    seq![upper_hex_digit(byte / 16), upper_hex_digit(byte % 16)]
}

/// The two digits of a byte spell that byte.
pub proof fn lemma_hex_pair_round_trip(byte: u8)
    ensures
        byte_token(hex_pair(byte)) == Some(byte),
{
    let hi: u8 = byte / 16;
    let lo: u8 = byte % 16;
    assert(hex_digit_value(upper_hex_digit(hi)) == Some(hi));
    assert(hex_digit_value(upper_hex_digit(lo)) == Some(lo));
    assert(hex_pair(byte)[0] == upper_hex_digit(hi));
    assert(hex_pair(byte)[1] == upper_hex_digit(lo));
}

/// The hex byte string of `bytes`: two upper-case digits for each byte,
/// with single spaces between them.
pub open spec fn hex_text(bytes: Seq<u8>) -> Seq<char>
    decreases bytes.len(),
{
    if bytes.len() == 0 {
        Seq::empty()
    } else if bytes.len() == 1 {
        hex_pair(bytes[0])
    } else {
        hex_pair(bytes[0]) + seq![' '] + hex_text(bytes.skip(1))
    }
}

/// The two digits of a byte are a word of their own.
pub proof fn lemma_hex_pair_is_word(byte: u8)
    ensures
        is_word(hex_pair(byte)),
{
    let hi: u8 = byte / 16;
    let lo: u8 = byte % 16;
    assert(hex_pair(byte)[0] == upper_hex_digit(hi));
    assert(hex_pair(byte)[1] == upper_hex_digit(lo));
    assert(!is_whitespace(upper_hex_digit(hi)));
    assert(!is_whitespace(upper_hex_digit(lo)));
}

/// Putting the hex byte string of `prefix` and a space in front of a text
/// puts the bytes of `prefix` in front of the bytes that the text spells;
/// the result is a hex byte string exactly when the text is one.
pub proof fn lemma_hex_text_prepends(prefix: Seq<u8>, text: Seq<char>)
    ensures
        hex_bytes(hex_text(prefix) + seq![' '] + text) == match hex_bytes(text) {
            Some(bytes) => Some(prefix + bytes),
            None => None,
        },
    decreases prefix.len(),
{
    let whole = hex_text(prefix) + seq![' '] + text;
    if prefix.len() == 0 {
        assert(whole =~= seq![' '] + text);
        lemma_words_skip_whitespace(' ', text);
        if hex_bytes(text) is Some {
            assert(prefix + hex_bytes(text)->0 =~= hex_bytes(text)->0);
        }
    } else {
        let pair = hex_pair(prefix[0]);
        let rest = prefix.skip(1);
        let tail = if prefix.len() == 1 {
            seq![' '] + text
        } else {
            seq![' '] + (hex_text(rest) + seq![' '] + text)
        };
        assert(whole =~= pair + tail);
        lemma_hex_pair_is_word(prefix[0]);
        lemma_hex_pair_round_trip(prefix[0]);
        lemma_words_first(pair, tail);
        if prefix.len() == 1 {
            lemma_words_skip_whitespace(' ', text);
            assert(rest =~= Seq::<u8>::empty());
            assert(hex_text(rest) =~= Seq::<char>::empty());
        } else {
            lemma_words_skip_whitespace(' ', hex_text(rest) + seq![' '] + text);
            lemma_hex_text_prepends(rest, text);
        }
        // Either way, the words of the whole are the pair and then the
        // words that spell `rest` followed by those of `text`.
        let after = if prefix.len() == 1 {
            text
        } else {
            hex_text(rest) + seq![' '] + text
        };
        assert(words(whole) == seq![pair] + words(after));
        if prefix.len() == 1 {
            assert(hex_bytes(after) == match hex_bytes(text) {
                Some(bytes) => Some(rest + bytes),
                None => None,
            }) by {
                if hex_bytes(text) is Some {
                    assert(rest + hex_bytes(text)->0 =~= hex_bytes(text)->0);
                }
            }
        }
        lemma_byte_tokens_cons(pair, words(after));
        if hex_bytes(text) is Some {
            let bytes = hex_bytes(text)->0;
            assert(seq![prefix[0]] + (rest + bytes) =~= prefix + bytes);
        }
    }
}

/// A token list that starts with a byte token spells that byte and then
/// what the other tokens spell; it is all byte tokens exactly when the
/// others are.
pub proof fn lemma_byte_tokens_cons(first: Seq<char>, others: Seq<Seq<char>>)
    requires
        byte_token(first) is Some,
    ensures
        all_byte_tokens(seq![first] + others) == all_byte_tokens(others),
        all_byte_tokens(others) ==> token_bytes(seq![first] + others) == seq![
            byte_token(first)->0,
        ] + token_bytes(others),
{
    let all = seq![first] + others;
    if all_byte_tokens(others) {
        assert forall|i: int| 0 <= i < all.len() implies (#[trigger] byte_token(all[i])) is Some by {
            if i > 0 {
                assert(all[i] == others[i - 1]);
            }
        }
        assert(token_bytes(all) =~= seq![byte_token(first)->0] + token_bytes(others)) by {
            assert forall|i: int| 0 <= i < all.len() implies token_bytes(all)[i] == (seq![
                byte_token(first)->0,
            ] + token_bytes(others))[i] by {
                if i > 0 {
                    assert(all[i] == others[i - 1]);
                }
            }
        }
    } else {
        let i = choose|i: int| 0 <= i < others.len() && !((#[trigger] byte_token(others[i])) is Some);
        assert(all[i + 1] == others[i]);
        assert(!(byte_token(all[i + 1]) is Some));
    }
}

/// Reading the hex byte string of some bytes gives those bytes back.
pub proof fn lemma_hex_text_round_trip(bytes: Seq<u8>)
    ensures
        hex_bytes(hex_text(bytes)) == Some(bytes),
    decreases bytes.len(),
{
    if bytes.len() == 0 {
        assert(words(hex_text(bytes)) =~= Seq::<Seq<char>>::empty());
        assert(token_bytes(words(hex_text(bytes))) =~= bytes);
    } else {
        let pair = hex_pair(bytes[0]);
        let rest = bytes.skip(1);
        lemma_hex_pair_is_word(bytes[0]);
        lemma_hex_pair_round_trip(bytes[0]);
        lemma_hex_text_round_trip(rest);
        if bytes.len() == 1 {
            assert(hex_text(bytes) =~= pair + Seq::<char>::empty());
            lemma_words_first(pair, Seq::<char>::empty());
            assert(rest =~= Seq::<u8>::empty());
            lemma_byte_tokens_cons(pair, words(Seq::<char>::empty()));
        } else {
            let tail = seq![' '] + hex_text(rest);
            assert(hex_text(bytes) =~= pair + tail);
            lemma_words_first(pair, tail);
            lemma_words_skip_whitespace(' ', hex_text(rest));
            lemma_byte_tokens_cons(pair, words(hex_text(rest)));
        }
        assert(seq![bytes[0]] + rest =~= bytes);
    }
}

/// A prefix of a digit string never spells more than the whole.
pub proof fn lemma_digits_value_prefix(digits: Seq<char>, radix: nat, n: int)
    requires
        0 <= n <= digits.len(),
        radix >= 1,
    ensures
        digits_value(digits.take(n), radix) <= digits_value(digits, radix),
    decreases digits.len(),
{
    if n == digits.len() {
        assert(digits.take(n) =~= digits);
    } else {
        let front = digits.drop_last();
        lemma_digits_value_prefix(front, radix, n);
        assert(front.take(n) =~= digits.take(n));
        assert(radix * digits_value(front, radix) >= digits_value(front, radix)) by (nonlinear_arith)
            requires
                radix >= 1,
        ;
    }
}

/// Decides [`hex_digit_value`].
pub fn hex_digit(c: char) -> (r: Option<u8>)
    ensures
        r == hex_digit_value(c),
{
    if '0' <= c && c <= '9' {
        Some(c as u8 - '0' as u8)
    } else if 'a' <= c && c <= 'f' {
        Some(c as u8 - 'a' as u8 + 10)
    } else if 'A' <= c && c <= 'F' {
        Some(c as u8 - 'A' as u8 + 10)
    } else {
        None
    }
}

/// Writes a byte as two upper-case hexadecimal digits.
pub fn render_byte(byte: u8) -> (r: (char, char))
    ensures
        seq![r.0, r.1] == hex_pair(byte),
{
    let hi: u8 = byte / 16;
    let lo: u8 = byte % 16;
    let high = if hi < 10 {
        ('0' as u8 + hi) as char
    } else {
        ('A' as u8 + (hi - 10)) as char
    };
    let low = if lo < 10 {
        ('0' as u8 + lo) as char
    } else {
        ('A' as u8 + (lo - 10)) as char
    };
    proof {
        assert(seq![high, low] =~= hex_pair(byte));
    }
    (high, low)
}

/// Reads the token `s[a..b]` as a byte.
pub fn parse_byte_token(s: &Vec<char>, a: usize, b: usize) -> (r: Option<u8>)
    requires
        a <= b <= s.len(),
    ensures
        r == byte_token(s@.subrange(a as int, b as int)),
{
    if b - a != 2 {
        return None;
    }
    match (hex_digit(s[a]), hex_digit(s[a + 1])) {
        (Some(hi), Some(lo)) => Some(16 * hi + lo),
        _ => None,
    }
}

/// Reads a hex byte string such as `"90 90 EC 04"`.
///
/// Tokens are separated by any amount of whitespace; text without tokens
/// gives no bytes.
pub fn parse_hex_bytes(text: &str) -> (r: Option<Vec<u8>>)
    ensures
        match r {
            Some(bytes) => hex_bytes(text@) == Some(bytes@),
            None => hex_bytes(text@) is None,
        },
{
    let s = text_chars(text);
    let mut bytes: Vec<u8> = Vec::new();
    let mut pos: usize = 0;
    let ghost mut seen: Seq<Seq<char>> = Seq::empty();
    proof {
        assert(s@.skip(0) =~= s@);
        assert(seen + words(s@) =~= words(s@));
    }
    loop
        invariant
            s@ == text@,
            pos <= s.len(),
            words(s@) == seen + words(s@.skip(pos as int)),
            all_byte_tokens(seen),
            bytes@ == token_bytes(seen),
        decreases s.len() - pos,
    {
        match next_word(&s, pos) {
            None => {
                proof {
                    assert(words(s@) =~= seen);
                }
                return Some(bytes);
            },
            Some((a, b)) => {
                let ghost token = s@.subrange(a as int, b as int);
                match parse_byte_token(&s, a, b) {
                    None => {
                        proof {
                            let all = words(s@);
                            assert(all[seen.len() as int] == token);
                            assert(byte_token(all[seen.len() as int]) is None);
                        }
                        return None;
                    },
                    Some(value) => {
                        proof {
                            let grown = seen.push(token);
                            assert(words(s@) =~= grown + words(s@.skip(b as int)));
                            assert(bytes@.push(value) =~= token_bytes(grown));
                            seen = grown;
                        }
                        bytes.push(value);
                        pos = b;
                    },
                }
            },
        }
    }
}

/// Reads `s[from..]` as a number in base `radix`: digits only, at least
/// one, and no more than fit in `usize`.
pub fn parse_number(s: &Vec<char>, from: usize, radix: u8) -> (r: Option<usize>)
    requires
        from <= s.len(),
        2 <= radix <= 16,
    ensures
        r == number(s@.skip(from as int), radix as nat),
{
    let ghost digits = s@.skip(from as int);
    if from == s.len() {
        return None;
    }
    let mut value: usize = 0;
    let mut i: usize = from;
    while i < s.len()
        invariant
            from <= i <= s.len(),
            2 <= radix <= 16,
            digits == s@.skip(from as int),
            all_digits(digits.take(i - from), radix as nat),
            value == digits_value(digits.take(i - from), radix as nat),
        decreases s.len() - i,
    {
        let ghost next = digits.take(i - from + 1);
        proof {
            assert(next.drop_last() =~= digits.take(i - from));
            assert(next.last() == s@[i as int]);
            lemma_digits_value_prefix(digits, radix as nat, i - from + 1);
        }
        let digit = match hex_digit(s[i]) {
            Some(d) => if d < radix {
                Some(d)
            } else {
                None
            },
            None => None,
        };
        match digit {
            None => {
                proof {
                    assert(digit_value(digits[i - from], radix as nat) is None);
                }
                return None;
            },
            Some(d) => {
                proof {
                    assert(digit_value(next.last(), radix as nat) == Some(d));
                    assert(digits_value(next, radix as nat) == (radix as nat) * (value as nat) + d);
                    assert(value * radix == radix * value) by (nonlinear_arith);
                }
                let grown = match value.checked_mul(radix as usize) {
                    Some(shifted) => shifted.checked_add(d as usize),
                    None => None,
                };
                match grown {
                    Some(v) => {
                        value = v;
                    },
                    None => {
                        return None;
                    },
                }
                i += 1;
            },
        }
    }
    proof {
        assert(digits.take(i - from) =~= digits);
    }
    Some(value)
}

/// Reads `s[from..]` as a hexadecimal number.
pub fn parse_hex_number(s: &Vec<char>, from: usize) -> (r: Option<usize>)
    requires
        from <= s.len(),
    ensures
        r == hex_number(s@.skip(from as int)),
{
    parse_number(s, from, 16)
}

/// Reads a literal offset: hexadecimal digits, with or without one leading
/// `0x`.
pub fn parse_offset(text: &str) -> (r: Option<usize>)
    ensures
        r == literal_offset(text@),
{
    let s = text_chars(text);
    let prefixed = s.len() >= 2 && s[0] == '0' && s[1] == 'x';
    proof {
        let mark = seq!['0', 'x'];
        if prefixed {
            assert(s@.subrange(0, 2) =~= mark);
        } else if s.len() >= 2 {
            assert(s@.subrange(0, 2)[0] == s@[0]);
            assert(s@.subrange(0, 2)[1] == s@[1]);
        }
        assert(prefixed == starts_with(s@, mark));
        assert(s@.skip(0) =~= s@);
    }
    if prefixed {
        parse_hex_number(&s, 2)
    } else {
        parse_hex_number(&s, 0)
    }
}

} // verus!
