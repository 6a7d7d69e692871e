//! Symbol lookup in a text dump.
//!
//! A dump is a list of lines. A declaration's offset is written on the line
//! directly above it, as `Offset: 0x<hex digits>`; the annotation is found
//! with a regular expression.

use crate::hex::{hex_number, parse_hex_number};
use crate::text::{contains, line_views, occurs_in, opt_text, text_chars};
use vstd::prelude::*;

verus! {

/// The regular expression of an offset annotation. Its first group holds
/// the digits.
pub const OFFSET_ANNOTATION: &'static str = r"Offset:\s*0x([0-9A-Fa-f]+)";

/// The capture group of an offset annotation that holds the digits.
pub const DIGITS_GROUP: usize = 1;

/// What a lookup of a symbol found.
#[derive(Clone, Copy, Debug, PartialEq, Eq, Structural)]
pub enum SymbolLookup {
    /// The name is mentioned and the line above gives this offset.
    Found(usize),
    /// The name is mentioned, but the line above gives no offset: it has no
    /// annotation, or one whose number does not fit the machine.
    Unannotated,
    /// No line mentions the name.
    NotFound,
}

/// The text of capture group `group` in the leftmost match of the regular
/// expression `pattern` in `text`, as the `regex` crate finds it. `None`
/// where `pattern` is no valid expression, where it matches nowhere in
/// `text`, and where the group took no part in the match.
pub uninterp spec fn regex_group(pattern: Seq<char>, text: Seq<char>, group: nat) -> Option<
    Seq<char>,
>;

/// Runs `regex::Regex::new` on `pattern`, `Regex::captures` on `text` and
/// `Captures::get` on `group`, and copies out the matched text.
///
/// Nothing is proved of this function. Its contract claims only that the
/// outcome is the one that [`regex_group`] names: it depends on the three
/// arguments and on nothing else.
#[verifier::external_body]
fn capture_group(pattern: &str, text: &str, group: usize) -> (r: Option<String>)
    ensures
        opt_text(r) == regex_group(pattern@, text@, group as nat),
{
    let compiled = regex::Regex::new(pattern).ok()?;
    let found = compiled.captures(text)?.get(group)?;
    Some(found.as_str().to_string())
}

/// Index of the first line that mentions `name`.
pub open spec fn first_mention(lines: Seq<Seq<char>>, name: Seq<char>) -> Option<int>
    decreases lines.len(),
{
    if lines.len() == 0 {
        None
    } else {
        match first_mention(lines.drop_last(), name) {
            Some(i) => Some(i),
            None => if occurs_in(lines.last(), name) {
                Some(lines.len() - 1)
            } else {
                None
            },
        }
    }
}

/// The line directly above line `i`; the empty line above the first.
pub open spec fn line_above(lines: Seq<Seq<char>>, i: int) -> Seq<char> {
    if 0 < i <= lines.len() {
        lines[i - 1]
    } else {
        Seq::empty()
    }
}

/// The lookup result that the captured digits of an annotation stand for.
pub open spec fn offset_of_capture(capture: Option<Seq<char>>) -> SymbolLookup {
    match capture {
        Some(digits) => match hex_number(digits) {
            Some(offset) => SymbolLookup::Found(offset),
            None => SymbolLookup::Unannotated,
        },
        None => SymbolLookup::Unannotated,
    }
}

/// The offset that `line` annotates, if it is an annotation.
pub open spec fn annotation(line: Seq<char>) -> SymbolLookup {
    offset_of_capture(regex_group(OFFSET_ANNOTATION@, line, DIGITS_GROUP as nat))
}

/// The result of looking `name` up in `lines`: the annotation on the line
/// above the first line that mentions `name`.
pub open spec fn symbol_lookup(lines: Seq<Seq<char>>, name: Seq<char>) -> SymbolLookup {
    match first_mention(lines, name) {
        Some(i) => annotation(line_above(lines, i)),
        None => SymbolLookup::NotFound,
    }
}

/// [`first_mention`] gives the least index of a line that mentions the
/// name, and `None` exactly when no line does.
pub proof fn lemma_first_mention(lines: Seq<Seq<char>>, name: Seq<char>)
    ensures
        match first_mention(lines, name) {
            Some(i) => {
                &&& 0 <= i < lines.len()
                &&& occurs_in(lines[i], name)
                &&& forall|k: int| 0 <= k < i ==> !occurs_in(#[trigger] lines[k], name)
            },
            None => forall|k: int| 0 <= k < lines.len() ==> !occurs_in(#[trigger] lines[k], name),
        },
    decreases lines.len(),
{
    if lines.len() > 0 {
        let front = lines.drop_last();
        lemma_first_mention(front, name);
        assert forall|k: int| 0 <= k < front.len() implies front[k] == lines[k] by {}
        match first_mention(front, name) {
            Some(i) => {
                assert(lines[i] == front[i]);
                assert forall|k: int| 0 <= k < i implies !occurs_in(#[trigger] lines[k], name) by {
                    assert(front[k] == lines[k]);
                }
            },
            None => {
                assert forall|k: int| 0 <= k < lines.len() - 1 implies !occurs_in(
                    #[trigger] lines[k],
                    name,
                ) by {
                    assert(front[k] == lines[k]);
                }
            },
        }
    }
}

/// Turns the digits that an annotation captured into a lookup result.
///
/// `capture` is what the regular expression gave for the line above the
/// declaration: the digits after `0x`, or `None` when the line is no
/// annotation.
pub fn offset_from_capture(capture: &Option<String>) -> (r: SymbolLookup)
    ensures
        r == offset_of_capture(opt_text(*capture)),
{
    match capture {
        Some(digits) => {
            let s = text_chars(digits.as_str());
            proof {
                assert(s@.skip(0) =~= s@);
            }
            match parse_hex_number(&s, 0) {
                Some(offset) => SymbolLookup::Found(offset),
                None => SymbolLookup::Unannotated,
            }
        },
        None => SymbolLookup::Unannotated,
    }
}

/// Reads the offset that `line` annotates.
pub fn read_annotation(line: &str) -> (r: SymbolLookup)
    ensures
        r == annotation(line@),
{
    let capture = capture_group(OFFSET_ANNOTATION, line, DIGITS_GROUP);
    offset_from_capture(&capture)
}

/// Looks `method_name` up in the lines of a symbol dump.
///
/// The first line that contains `method_name` decides: the result is the
/// offset annotated on the line directly above it. Later mentions are not
/// looked at.
pub fn find_offset_by_method_name(method_name: &str, lines: &Vec<String>) -> (r: SymbolLookup)
    ensures
        r == symbol_lookup(line_views(lines@), method_name@),
{
    let name = text_chars(method_name);
    let ghost all = line_views(lines@);
    let mut i: usize = 0;
    while i < lines.len()
        invariant
            i <= lines.len(),
            name@ == method_name@,
            all == line_views(lines@),
            first_mention(all.take(i as int), name@) is None,
        decreases lines.len() - i,
    {
        let line = text_chars(lines[i].as_str());
        let ghost upto = all.take(i + 1);
        proof {
            assert(upto.drop_last() =~= all.take(i as int));
            assert(upto.last() == line@);
        }
        if contains(&line, &name) {
            proof {
                assert(first_mention(upto, name@) == Some(i as int));
                lemma_first_mention_extends(all, name@, i + 1);
            }
            if i == 0 {
                proof {
                    reveal_strlit("");
                    assert(""@ =~= Seq::<char>::empty());
                }
                return read_annotation("");
            } else {
                return read_annotation(lines[i - 1].as_str());
            }
        }
        i += 1;
    }
    proof {
        assert(all.take(i as int) =~= all);
    }
    SymbolLookup::NotFound
}

/// A mention found in the first `n` lines is the first mention in all of
/// them.
pub proof fn lemma_first_mention_extends(lines: Seq<Seq<char>>, name: Seq<char>, n: int)
    requires
        0 <= n <= lines.len(),
        first_mention(lines.take(n), name) is Some,
    ensures
        first_mention(lines, name) == first_mention(lines.take(n), name),
    decreases lines.len() - n,
{
    if n == lines.len() {
        assert(lines.take(n) =~= lines);
    } else {
        assert(lines.take(n + 1).drop_last() =~= lines.take(n));
        lemma_first_mention_extends(lines, name, n + 1);
    }
}

} // verus!
