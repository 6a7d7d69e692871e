//! A look at the bytes of a file at a given offset.

use crate::hex::{number, parse_number};
use crate::text::text_chars;
use vstd::prelude::*;
use vstd::slice::{slice_subrange, slice_to_vec};

verus! {

/// The bytes found at an offset.
#[derive(Debug, PartialEq, Eq)]
pub struct Card {
    /// Where the bytes start.
    pub offset: usize,
    /// The bytes: as many as were asked for, or all that are left.
    pub bytes: Vec<u8>,
}

/// Why no card could be made.
#[derive(Clone, Copy, Debug, PartialEq, Eq, Structural)]
pub enum CardError {
    /// The offset is no number that fits the machine.
    OffsetSyntax,
    /// The offset lies at or past the end of the file.
    BeyondEnd { offset: usize },
}

/// Whether `text` is marked as hexadecimal: it begins with `0x` or `0X`.
pub open spec fn hex_marked(text: Seq<char>) -> bool {
    text.len() >= 2 && text[0] == '0' && (text[1] == 'x' || text[1] == 'X')
}

/// `text` without one leading plus sign.
pub open spec fn unsigned(text: Seq<char>) -> Seq<char> {
    if text.len() > 0 && text[0] == '+' {
        text.skip(1)
    } else {
        text
    }
}

/// The offset that `text` denotes: hexadecimal after `0x` or `0X`, decimal
/// otherwise. The digits may follow one plus sign.
pub open spec fn card_offset(text: Seq<char>) -> Option<usize> {
    if hex_marked(text) {
        number(unsigned(text.skip(2)), 16)
    } else {
        number(unsigned(text), 10)
    }
}

/// The index at which a card of `length` bytes from `offset` ends in a
/// file of `len` bytes.
pub open spec fn card_end(offset: usize, length: usize, len: nat) -> int {
    if offset + length <= len {
        offset + length
    } else {
        len as int
    }
}

/// What a card of `length` bytes at the offset `text` shows of `buffer`.
pub open spec fn card(buffer: Seq<u8>, text: Seq<char>, length: usize) -> Result<
    (usize, Seq<u8>),
    CardError,
> {
    match card_offset(text) {
        Some(offset) => if offset < buffer.len() {
            Ok((offset, buffer.subrange(offset as int, card_end(offset, length, buffer.len()))))
        } else {
            Err(CardError::BeyondEnd { offset })
        },
        None => Err(CardError::OffsetSyntax),
    }
}

/// The character that shows a byte in a text column: the byte itself where
/// it is printable ASCII, and none otherwise.
pub open spec fn printable(byte: u8) -> Option<char> {
    if 0x20 <= byte <= 0x7E {
        Some(byte as char)
    } else {
        None
    }
}

/// Reads the offset of a card.
pub fn parse_card_offset(text: &str) -> (r: Option<usize>)
    ensures
        r == card_offset(text@),
{
    let s = text_chars(text);
    let marked = s.len() >= 2 && s[0] == '0' && (s[1] == 'x' || s[1] == 'X');
    let start: usize = if marked {
        2
    } else {
        0
    };
    let ghost rest = s@.skip(start as int);
    let signed = start < s.len() && s[start] == '+';
    proof {
        assert(s@.skip(0) =~= s@);
        assert(signed == (rest.len() > 0 && rest[0] == '+'));
        if signed {
            assert(rest.skip(1) =~= s@.skip(start + 1));
        }
    }
    let digits: usize = if signed {
        start + 1
    } else {
        start
    };
    if marked {
        parse_number(&s, digits, 16)
    } else {
        parse_number(&s, digits, 10)
    }
}

/// Decides [`printable`].
pub fn printable_char(byte: u8) -> (r: Option<char>)
    ensures
        r == printable(byte),
{
    if 0x20 <= byte && byte <= 0x7E {
        Some(byte as char)
    } else {
        None
    }
}

/// Takes up to `length` bytes of `buffer` from the offset that
/// `offset_str` denotes. The offset must lie within the buffer; the card
/// is cut off at the buffer's end.
pub fn get_card(buffer: &[u8], offset_str: &str, length: usize) -> (r: Result<Card, CardError>)
    ensures
        match card(buffer@, offset_str@, length) {
            Ok((offset, bytes)) => r is Ok && r->Ok_0.offset == offset && r->Ok_0.bytes@ == bytes,
            Err(e) => r == Err::<Card, CardError>(e),
        },
{
    let offset = match parse_card_offset(offset_str) {
        Some(offset) => offset,
        None => {
            return Err(CardError::OffsetSyntax);
        },
    };
    if offset >= buffer.len() {
        return Err(CardError::BeyondEnd { offset });
    }
    let end: usize = if length <= buffer.len() - offset {
        offset + length
    } else {
        buffer.len()
    };
    Ok(Card { offset, bytes: slice_to_vec(slice_subrange(buffer, offset, end)) })
}

} // verus!
