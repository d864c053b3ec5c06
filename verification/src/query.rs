//! Choosing a search result by the number that the user types.
use vstd::prelude::*;
use crate::text::{
    chars_of, decimal, is_ascii_digit, lemma_decimal_digits, lemma_parse_decimal, parse_i32,
    parse_i32_spec, trim, trim_end, trim_start, trimmed,
};

verus! {

/// What a typed answer selects among `count` numbered results (numbered from
/// one).
#[derive(Debug, Clone, Copy, PartialEq, Eq, Structural)]
pub enum Choice {
    /// The answer is not a number.
    NotANumber,
    /// The answer is refused; ask again.
    Retry,
    /// The result at this position (from zero).
    Selected(usize),
    /// The number stands for no result.
    OutOfRange,
    /// The number is the smallest `i32`, which has no predecessor.
    Overflow,
}

/// What the number `index` selects among `count` results: the smallest
/// `i32` has no predecessor; any other number is refused when it is at
/// least the count and below one, and otherwise stands for position
/// `index - 1`.
pub open spec fn choice_of_index(index: i32, count: usize) -> Choice {
    let len = count as i32;
    if index == i32::MIN {
        Choice::Overflow
    } else if index >= len && index - 1 < 0 {
        Choice::Retry
    } else {
        let k = (index - 1) as usize;
        if k < count {
            Choice::Selected(k)
        } else {
            Choice::OutOfRange
        }
    }
}

/// What the typed `input` selects among `count` results: the number it
/// holds once trimmed.
pub open spec fn choice_of_input(input: Seq<char>, count: usize) -> Choice {
    match parse_i32_spec(trim(input)) {
        None => Choice::NotANumber,
        Some(index) => choice_of_index(index, count),
    }
}

/// What the number `index` selects among `count` results.
pub fn choose_index(index: i32, count: usize) -> (choice: Choice)
    ensures
        choice == choice_of_index(index, count),
{
    let len = count as i32;
    if index == i32::MIN {
        Choice::Overflow
    } else if index >= len && index - 1 < 0 {
        Choice::Retry
    } else {
        let k = (index - 1) as usize;
        if k < count {
            Choice::Selected(k)
        } else {
            Choice::OutOfRange
        }
    }
}

/// What the typed `input` selects among `count` results.
pub fn choose_result(input: &str, count: usize) -> (choice: Choice)
    ensures
        choice == choice_of_input(input@, count),
{
    let t = trimmed(input);
    let chars = chars_of(t.as_str());
    match parse_i32(chars.as_slice()) {
        None => Choice::NotANumber,
        Some(index) => choose_index(index, count),
    }
}

/// Every number from one to the count selects the result just before it.
pub proof fn lemma_numbers_select_results(index: i32, count: usize)
    requires
        1 <= index,
        index as int <= count as int,
    ensures
        choice_of_index(index, count) == Choice::Selected((index - 1) as usize),
{
    if count <= i32::MAX {
        assert(count as i32 == count);
    } else {
        assert(index >= 1);
    }
}

/// Typing the number of a result, as its decimal notation, selects that
/// result: the number `k` (from one to the count) selects position `k - 1`.
pub proof fn lemma_typed_number_selects(k: nat, count: usize)
    requires
        1 <= k <= count,
        k <= i32::MAX,
    ensures
        choice_of_input(decimal(k), count) == Choice::Selected((k - 1) as usize),
{
    lemma_decimal_digits(k);
    lemma_parse_decimal(k);
    let d = decimal(k);
    assert(is_ascii_digit(d[0]));
    assert(is_ascii_digit(d[d.len() - 1]));
    assert(trim_start(d) == d);
    assert(trim_end(d) == d);
    lemma_numbers_select_results(k as i32, count);
}

} // verus!
