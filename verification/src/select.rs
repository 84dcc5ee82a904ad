//! Interpretation of the operator's selection line.
//!
//! The prompt reads one line. An empty line asks for a clean exit. A line
//! of decimal digits naming an index below the registry length chooses
//! that candidate. Anything else — a non-digit, or a number at or past the
//! registry length, however large — asks for another prompt, and never
//! panics or indexes out of bounds.

use vstd::prelude::*;

verus! {

/// What the selection line asks for.
#[derive(Clone, Copy, PartialEq, Eq, Structural, Debug)]
pub enum Selection {
    /// Exit without booting anything.
    Exit,
    /// The line named no selectable candidate; prompt again.
    Retry,
    /// Boot the candidate at this index, which is below the registry length.
    Chosen(usize),
}

/// A decimal digit.
pub open spec fn is_ascii_digit(c: char) -> bool {
    48 <= c as u32 && c as u32 <= 57
}

/// The numeric value of one digit.
pub open spec fn digit_val(c: char) -> int {
    c as u32 - 48
}

/// The line consists of digits alone.
pub open spec fn all_digits(s: Seq<char>) -> bool {
    forall|i: int| 0 <= i < s.len() ==> is_ascii_digit(s[i])
}

/// The base-ten value of a digit line. Leading zeroes are allowed and
/// carry no meaning.
pub open spec fn digits_value(s: Seq<char>) -> int
    decreases s.len(),
{
    if s.len() == 0 {
        0
    } else {
        digits_value(s.drop_last()) * 10 + digit_val(s.last())
    }
}

/// Interprets one selection line against the registry length: the empty
/// line exits, a digit line below the length chooses, everything else
/// re-prompts.
pub fn interpret_selection(line: &Vec<char>, count: usize) -> (r: Selection)
    ensures
        (if line@.len() == 0 {
            r == Selection::Exit
        } else if all_digits(line@) && digits_value(line@) < count {
            r == Selection::Chosen(digits_value(line@) as usize)
        } else {
            r == Selection::Retry
        }),
{
    if line.len() == 0 {
        return Selection::Exit;
    }
    let mut acc: u128 = 0;
    let mut big: bool = count == 0;
    let mut i: usize = 0;
    while i < line.len()
        invariant
            i <= line@.len(),
            forall|k: int| 0 <= k < i ==> is_ascii_digit(line@[k]),
            !big ==> acc == digits_value(line@.take(i as int)) && acc < count,
            big ==> digits_value(line@.take(i as int)) >= count,
        decreases line@.len() - i,
    {
        let c = line[i];
        let cu = c as u32;
        if cu < 48 || cu > 57 {
            proof {
                assert(!is_ascii_digit(line@[i as int]));
            }
            return Selection::Retry;
        }
        let d = (cu - 48) as u128;
        proof {
            assert(line@.take(i as int + 1).drop_last() =~= line@.take(i as int));
            assert(line@.take(i as int + 1).last() == line@[i as int]);
        }
        if big {
            proof {
                let v = digits_value(line@.take(i as int));
                assert(v * 10 >= v) by {
                    assert(v >= 0);
                }
                assert(digits_value(line@.take(i as int + 1)) >= count);
            }
        } else {
            let next = acc * 10 + d;
            if next >= count as u128 {
                big = true;
            } else {
                acc = next;
            }
        }
        i += 1;
    }
    proof {
        assert(line@.take(line@.len() as int) =~= line@);
    }
    if big {
        Selection::Retry
    } else {
        Selection::Chosen(acc as usize)
    }
}

} // verus!
