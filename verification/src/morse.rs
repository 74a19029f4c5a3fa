//! Morse translation: the element alphabet, the fixed code table for
//! letters, digits, punctuation and prosigns, and the conversion of text
//! to a timed element sequence.

use vstd::prelude::*;
use crate::strutil::{chars_to_string, str_chars, to_upper, upper_of};

verus! {

use crate::morse::MorseElement::{Dash, Dot};

/// Morse code element
#[derive(Debug, Clone, Copy, PartialEq, Eq, Structural)]
pub enum MorseElement {
    Dot,
    Dash,
    ElementSpace,
    CharacterSpace,
    WordSpace,
}

/// The tone elements of one character, without inter-element spacing.
/// Prosigns ride on punctuation marks: `@` message begins, `+` message
/// ends, `&` wait, `*` break, `%` error, `^` attention, `~` go ahead,
/// `>` end of contact, `<` understood.
pub open spec fn spec_morse_code(ch: char) -> Option<Seq<MorseElement>> {
    match ch {
        'A' => Some(seq![Dot, Dash]),
        'B' => Some(seq![Dash, Dot, Dot, Dot]),
        'C' => Some(seq![Dash, Dot, Dash, Dot]),
        'D' => Some(seq![Dash, Dot, Dot]),
        'E' => Some(seq![Dot]),
        'F' => Some(seq![Dot, Dot, Dash, Dot]),
        'G' => Some(seq![Dash, Dash, Dot]),
        'H' => Some(seq![Dot, Dot, Dot, Dot]),
        'I' => Some(seq![Dot, Dot]),
        'J' => Some(seq![Dot, Dash, Dash, Dash]),
        'K' => Some(seq![Dash, Dot, Dash]),
        'L' => Some(seq![Dot, Dash, Dot, Dot]),
        'M' => Some(seq![Dash, Dash]),
        'N' => Some(seq![Dash, Dot]),
        'O' => Some(seq![Dash, Dash, Dash]),
        'P' => Some(seq![Dot, Dash, Dash, Dot]),
        'Q' => Some(seq![Dash, Dash, Dot, Dash]),
        'R' => Some(seq![Dot, Dash, Dot]),
        'S' => Some(seq![Dot, Dot, Dot]),
        'T' => Some(seq![Dash]),
        'U' => Some(seq![Dot, Dot, Dash]),
        'V' => Some(seq![Dot, Dot, Dot, Dash]),
        'W' => Some(seq![Dot, Dash, Dash]),
        'X' => Some(seq![Dash, Dot, Dot, Dash]),
        'Y' => Some(seq![Dash, Dot, Dash, Dash]),
        'Z' => Some(seq![Dash, Dash, Dot, Dot]),
        '0' => Some(seq![Dash, Dash, Dash, Dash, Dash]),
        '1' => Some(seq![Dot, Dash, Dash, Dash, Dash]),
        '2' => Some(seq![Dot, Dot, Dash, Dash, Dash]),
        '3' => Some(seq![Dot, Dot, Dot, Dash, Dash]),
        '4' => Some(seq![Dot, Dot, Dot, Dot, Dash]),
        '5' => Some(seq![Dot, Dot, Dot, Dot, Dot]),
        '6' => Some(seq![Dash, Dot, Dot, Dot, Dot]),
        '7' => Some(seq![Dash, Dash, Dot, Dot, Dot]),
        '8' => Some(seq![Dash, Dash, Dash, Dot, Dot]),
        '9' => Some(seq![Dash, Dash, Dash, Dash, Dot]),
        '/' => Some(seq![Dash, Dot, Dot, Dash, Dot]),
        '?' => Some(seq![Dot, Dot, Dash, Dash, Dot, Dot]),
        '.' => Some(seq![Dot, Dash, Dot, Dash, Dot, Dash]),
        ',' => Some(seq![Dash, Dash, Dot, Dot, Dash, Dash]),
        '-' => Some(seq![Dash, Dot, Dot, Dot, Dot, Dash]),
        '=' => Some(seq![Dash, Dot, Dot, Dot, Dash]),
        '@' => Some(seq![Dot, Dash, Dash, Dot, Dash, Dot]),
        '+' => Some(seq![Dot, Dash, Dot, Dash, Dot]),
        '&' => Some(seq![Dot, Dot, Dot, Dash, Dot]),
        '*' => Some(seq![Dash, Dot, Dot, Dash]),
        '%' => Some(seq![Dot, Dot, Dot, Dot, Dot, Dot, Dot, Dot]),
        '^' => Some(seq![Dash, Dot, Dash, Dot, Dash]),
        '~' => Some(seq![Dash, Dot, Dash, Dash, Dot]),
        '>' => Some(seq![Dot, Dash, Dot, Dot, Dash]),
        '<' => Some(seq![Dot, Dot, Dot, Dash, Dot, Dash]),
        _ => None,
    }
}

/// The tone elements of one character, or `None` for a character the
/// table does not cover.
pub fn morse_code(ch: char) -> (r: Option<Vec<MorseElement>>)
    ensures
        match r {
            Some(v) => spec_morse_code(ch) == Some(v@),
            None => spec_morse_code(ch) is None,
        },
{
    let r: Option<Vec<MorseElement>> = match ch {
        'A' => Some(vec![Dot, Dash]),
        'B' => Some(vec![Dash, Dot, Dot, Dot]),
        'C' => Some(vec![Dash, Dot, Dash, Dot]),
        'D' => Some(vec![Dash, Dot, Dot]),
        'E' => Some(vec![Dot]),
        'F' => Some(vec![Dot, Dot, Dash, Dot]),
        'G' => Some(vec![Dash, Dash, Dot]),
        'H' => Some(vec![Dot, Dot, Dot, Dot]),
        'I' => Some(vec![Dot, Dot]),
        'J' => Some(vec![Dot, Dash, Dash, Dash]),
        'K' => Some(vec![Dash, Dot, Dash]),
        'L' => Some(vec![Dot, Dash, Dot, Dot]),
        'M' => Some(vec![Dash, Dash]),
        'N' => Some(vec![Dash, Dot]),
        'O' => Some(vec![Dash, Dash, Dash]),
        'P' => Some(vec![Dot, Dash, Dash, Dot]),
        'Q' => Some(vec![Dash, Dash, Dot, Dash]),
        'R' => Some(vec![Dot, Dash, Dot]),
        'S' => Some(vec![Dot, Dot, Dot]),
        'T' => Some(vec![Dash]),
        'U' => Some(vec![Dot, Dot, Dash]),
        'V' => Some(vec![Dot, Dot, Dot, Dash]),
        'W' => Some(vec![Dot, Dash, Dash]),
        'X' => Some(vec![Dash, Dot, Dot, Dash]),
        'Y' => Some(vec![Dash, Dot, Dash, Dash]),
        'Z' => Some(vec![Dash, Dash, Dot, Dot]),
        '0' => Some(vec![Dash, Dash, Dash, Dash, Dash]),
        '1' => Some(vec![Dot, Dash, Dash, Dash, Dash]),
        '2' => Some(vec![Dot, Dot, Dash, Dash, Dash]),
        '3' => Some(vec![Dot, Dot, Dot, Dash, Dash]),
        '4' => Some(vec![Dot, Dot, Dot, Dot, Dash]),
        '5' => Some(vec![Dot, Dot, Dot, Dot, Dot]),
        '6' => Some(vec![Dash, Dot, Dot, Dot, Dot]),
        '7' => Some(vec![Dash, Dash, Dot, Dot, Dot]),
        '8' => Some(vec![Dash, Dash, Dash, Dot, Dot]),
        '9' => Some(vec![Dash, Dash, Dash, Dash, Dot]),
        '/' => Some(vec![Dash, Dot, Dot, Dash, Dot]),
        '?' => Some(vec![Dot, Dot, Dash, Dash, Dot, Dot]),
        '.' => Some(vec![Dot, Dash, Dot, Dash, Dot, Dash]),
        ',' => Some(vec![Dash, Dash, Dot, Dot, Dash, Dash]),
        '-' => Some(vec![Dash, Dot, Dot, Dot, Dot, Dash]),
        '=' => Some(vec![Dash, Dot, Dot, Dot, Dash]),
        '@' => Some(vec![Dot, Dash, Dash, Dot, Dash, Dot]),
        '+' => Some(vec![Dot, Dash, Dot, Dash, Dot]),
        '&' => Some(vec![Dot, Dot, Dot, Dash, Dot]),
        '*' => Some(vec![Dash, Dot, Dot, Dash]),
        '%' => Some(vec![Dot, Dot, Dot, Dot, Dot, Dot, Dot, Dot]),
        '^' => Some(vec![Dash, Dot, Dash, Dot, Dash]),
        '~' => Some(vec![Dash, Dot, Dash, Dash, Dot]),
        '>' => Some(vec![Dot, Dash, Dot, Dot, Dash]),
        '<' => Some(vec![Dot, Dot, Dot, Dash, Dot, Dash]),
        _ => None,
    };
    proof {
        if r is Some {
            assert(spec_morse_code(ch) == Some(r->Some_0@)) by {
                assert(r->Some_0@ =~= spec_morse_code(ch)->Some_0);
            }
        }
    }
    r
}

/// A character's elements with one `ElementSpace` between consecutive
/// tones.
pub open spec fn with_gaps(els: Seq<MorseElement>) -> Seq<MorseElement>
    decreases els.len(),
{
    if els.len() == 0 {
        Seq::empty()
    } else if els.len() == 1 {
        els
    } else {
        seq![els[0], MorseElement::ElementSpace] + with_gaps(els.drop_first())
    }
}

/// The element sequence for a character sequence, starting at index `i`:
/// a space becomes a word gap; a known character becomes its gapped
/// elements, followed by a character gap when another character follows
/// directly; unknown characters are skipped.
pub open spec fn spec_morse_seq(cs: Seq<char>, i: int) -> Seq<MorseElement>
    decreases cs.len() - i,
{
    if i < 0 || i >= cs.len() {
        Seq::empty()
    } else {
        let rest = spec_morse_seq(cs, i + 1);
        if cs[i] == ' ' {
            seq![MorseElement::WordSpace] + rest
        } else {
            match spec_morse_code(cs[i]) {
                Option::Some(els) => {
                    let gap: Seq<MorseElement> = if i + 1 < cs.len() && cs[i + 1] != ' ' {
                        seq![MorseElement::CharacterSpace]
                    } else {
                        Seq::empty()
                    };
                    with_gaps(els) + gap + rest
                },
                Option::None => rest,
            }
        }
    }
}

/// Append a character's elements with element gaps to the output.
fn push_with_gaps(out: &mut Vec<MorseElement>, els: &Vec<MorseElement>)
    ensures
        final(out)@ == old(out)@ + with_gaps(els@),
{
    let mut k: usize = 0;
    while k < els.len()
        invariant
            0 <= k <= els@.len(),
            out@ =~= old(out)@ + with_gaps(els@).take(
                if k == 0 {
                    0int
                } else {
                    2 * k - 1
                },
            ),
        decreases els@.len() - k,
    {
        if k > 0 {
            out.push(MorseElement::ElementSpace);
        }
        out.push(els[k]);
        k = k + 1;
        proof {
            lemma_with_gaps_index(els@, k as int);
            assert(out@ =~= old(out)@ + with_gaps(els@).take(2 * k - 1));
        }
    }
    proof {
        lemma_with_gaps_len(els@);
        assert(out@ =~= old(out)@ + with_gaps(els@));
    }
}

/// The length and contents of a gapped element sequence.
proof fn lemma_with_gaps_len(els: Seq<MorseElement>)
    ensures
        els.len() == 0 ==> with_gaps(els).len() == 0,
        els.len() >= 1 ==> with_gaps(els).len() == 2 * els.len() - 1,
    decreases els.len(),
{
    if els.len() > 1 {
        lemma_with_gaps_len(els.drop_first());
    }
}

/// Each tone sits at an even index of the gapped sequence, with element
/// gaps at the odd indices between.
proof fn lemma_with_gaps_index(els: Seq<MorseElement>, k: int)
    requires
        1 <= k <= els.len(),
    ensures
        with_gaps(els).len() >= 2 * k - 1,
        with_gaps(els)[2 * (k - 1)] == els[k - 1],
        k >= 2 ==> with_gaps(els)[2 * (k - 1) - 1] == MorseElement::ElementSpace,
    decreases k,
{
    lemma_with_gaps_len(els);
    if k > 1 {
        lemma_with_gaps_index(els.drop_first(), k - 1);
    }
}

/// Convert an uppercase character sequence to morse elements.
fn chars_to_morse(cs: &Vec<char>) -> (r: Vec<MorseElement>)
    ensures
        r@ == spec_morse_seq(cs@, 0),
{
    let mut out: Vec<MorseElement> = Vec::new();
    let mut i: usize = 0;
    while i < cs.len()
        invariant
            0 <= i <= cs@.len(),
            spec_morse_seq(cs@, 0) == out@ + spec_morse_seq(cs@, i as int),
        decreases cs@.len() - i,
    {
        let ch = cs[i];
        if ch == ' ' {
            out.push(MorseElement::WordSpace);
        } else {
            match morse_code(ch) {
                Option::Some(els) => {
                    push_with_gaps(&mut out, &els);
                    if i + 1 < cs.len() && cs[i + 1] != ' ' {
                        out.push(MorseElement::CharacterSpace);
                    }
                },
                Option::None => {},
            }
        }
        i = i + 1;
        proof {
            assert(spec_morse_seq(cs@, 0) =~= out@ + spec_morse_seq(cs@, i as int));
        }
    }
    assert(out@ =~= out@ + spec_morse_seq(cs@, i as int));
    out
}

/// Convert text to morse elements: the text is uppercased first, so the
/// result is the element sequence of its uppercase mapping.
pub fn text_to_morse(text: &str) -> (r: Vec<MorseElement>)
    ensures
        r@ == spec_morse_seq(upper_of(text@), 0),
{
    let upper = to_upper(text);
    let cs = str_chars(upper.as_str());
    chars_to_morse(&cs)
}

} // verus!
