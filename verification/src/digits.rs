//! Runs of digits, whose length limits what the JSON parser takes.

use vstd::prelude::*;

verus! {

/// How many digits in a row the JSON parser takes. It counts those of a number in an `i32`, and with
/// overflow checks it panics where there are more.
pub const MAX_DIGIT_RUN: usize = 0x7fff_ffff;

/// Whether a byte is an ASCII digit.
pub open spec fn is_digit(byte: u8) -> bool {
    0x30 <= byte <= 0x39
}

/// Whether the bytes of `text` from `start` up to `end` are digits.
pub open spec fn is_digit_run(text: Seq<u8>, start: int, end: int) -> bool {
    forall|i: int| start <= i < end ==> is_digit(#[trigger] text[i])
}

/// Whether no run of digits in `text` is longer than the JSON parser takes.
pub open spec fn digit_runs_fit(text: Seq<u8>) -> bool {
    forall|start: int, end: int|
        0 <= start <= end <= text.len() && #[trigger] is_digit_run(text, start, end) ==> end - start
            <= MAX_DIGIT_RUN
}

/// Whether no run of digits in `text` is longer than the JSON parser takes.
pub fn has_fitting_digit_runs(text: &[u8]) -> (answer: bool)
    ensures
        answer == digit_runs_fit(text@),
{
    if text.len() <= MAX_DIGIT_RUN {
        return true;
    }
    let mut run: usize = 0;
    let mut i: usize = 0;
    while i < text.len()
        invariant
            run <= i <= text@.len(),
            run <= MAX_DIGIT_RUN,
            is_digit_run(text@, i - run, i as int),
            run < i ==> !is_digit(text@[i - run - 1]),
            forall|start: int, end: int|
                0 <= start <= end <= i && #[trigger] is_digit_run(text@, start, end) ==> end - start
                    <= MAX_DIGIT_RUN,
        decreases text@.len() - i,
    {
        let byte = text[i];
        if 0x30 <= byte && byte <= 0x39 {
            assert(is_digit_run(text@, i - run, i + 1));
            if run == MAX_DIGIT_RUN {
                return false;
            }
            assert forall|start: int, end: int|
                0 <= start <= end <= i + 1 && #[trigger] is_digit_run(
                    text@,
                    start,
                    end,
                ) implies end - start <= MAX_DIGIT_RUN by {
                if end == i + 1 && start < i - run {
                    assert(is_digit(text@[i - run - 1]));
                }
            }
            run = run + 1;
        } else {
            assert forall|start: int, end: int|
                0 <= start <= end <= i + 1 && #[trigger] is_digit_run(
                    text@,
                    start,
                    end,
                ) implies end - start <= MAX_DIGIT_RUN by {
                if end == i + 1 && start <= i {
                    assert(is_digit(text@[i as int]));
                }
            }
            run = 0;
        }
        i = i + 1;
    }
    true
}

/// A text with no long run of digits has no part with one.
pub(crate) proof fn lemma_part_has_fitting_digit_runs(text: Seq<u8>, from: int, to: int)
    requires
        digit_runs_fit(text),
        0 <= from <= to <= text.len(),
    ensures
        digit_runs_fit(text.subrange(from, to)),
{
    let part = text.subrange(from, to);
    assert forall|start: int, end: int|
        0 <= start <= end <= part.len() && #[trigger] is_digit_run(part, start, end) implies end
        - start <= MAX_DIGIT_RUN by {
        assert forall|i: int| from + start <= i < from + end implies is_digit(
            #[trigger] text[i],
        ) by {
            assert(is_digit(part[i - from]));
        }
        assert(is_digit_run(text, from + start, from + end));
    }
}

} // verus!
