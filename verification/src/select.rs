//! The disambiguation protocol: when a search yields several entries, a
//! numbered list is shown and input lines are read until one names a valid
//! index. The read-validate-branch cycle here is pure; the caller owns the
//! terminal I/O and drives the machine with the lines it reads.

use vstd::prelude::*;

use crate::text::{parse_usize, parse_usize_spec, trim, trim_spec};

verus! {

/// Where the selection stands: still prompting for input, or done with the
/// chosen index.
#[derive(Debug, Clone, Copy, PartialEq, Eq, Structural)]
pub enum SelectState {
    /// A valid index has not been read yet.
    Prompting,
    /// The entry at this index was chosen.
    Done(usize),
}

/// The selection's first state: a list of exactly one entry is chosen
/// outright, without prompting; any other length starts the prompt cycle.
pub fn select_init(len: usize) -> (s: SelectState)
    ensures
        s == (if len == 1 {
            SelectState::Done(0usize)
        } else {
            SelectState::Prompting
        }),
{
    if len == 1 {
        SelectState::Done(0)
    } else {
        SelectState::Prompting
    }
}

/// What one input line does to the selection: the line, trimmed, read as a
/// decimal index; in range it finishes the selection, anything else prompts
/// again.
pub open spec fn select_step_spec(len: usize, line: Seq<char>) -> SelectState {
    match parse_usize_spec(trim_spec(line)) {
        Some(v) => if v < len {
            SelectState::Done(v)
        } else {
            SelectState::Prompting
        },
        None => SelectState::Prompting,
    }
}

/// Feeds one input line to the selection over a list of `len` entries.
pub fn select_step(len: usize, line: &str) -> (s: SelectState)
    ensures
        s == select_step_spec(len, line@),
{
    let trimmed = trim(line);
    match parse_usize(trimmed) {
        Some(v) => if v < len {
            SelectState::Done(v)
        } else {
            SelectState::Prompting
        },
        None => SelectState::Prompting,
    }
}

/// The selection re-prompts on input that does not read as a number and on a
/// number out of range, and finishes exactly on an in-range index, with that
/// index.
pub proof fn lemma_select_step_retries(len: usize, line: Seq<char>)
    ensures
        parse_usize_spec(trim_spec(line)) is None ==> select_step_spec(len, line)
            == SelectState::Prompting,
        (parse_usize_spec(trim_spec(line)) matches Some(v) ==> (v >= len ==> select_step_spec(
            len,
            line,
        ) == SelectState::Prompting)),
        (parse_usize_spec(trim_spec(line)) matches Some(v) ==> (v < len ==> select_step_spec(
            len,
            line,
        ) == SelectState::Done(v))),
{
}

/// How many decimal digits `n` has; the prompt's index column is as wide as
/// the largest index shown.
pub open spec fn digit_count(n: nat) -> nat
    decreases n,
{
    if n < 10 {
        1
    } else {
        1 + digit_count(n / 10)
    }
}

proof fn lemma_digit_count_pos(n: nat)
    ensures
        digit_count(n) >= 1,
    decreases n,
{
    if n >= 10 {
        lemma_digit_count_pos(n / 10);
    }
}

proof fn lemma_digit_count_le(n: nat)
    ensures
        digit_count(n) <= n + 1,
    decreases n,
{
    if n >= 10 {
        assert(n / 10 < n) by (nonlinear_arith)
            requires
                n >= 10,
        ;
        lemma_digit_count_le(n / 10);
        assert(n / 10 + 2 <= n + 1) by (nonlinear_arith)
            requires
                n >= 10,
        ;
    }
}

/// The width of the prompt's index field: the digits of the largest index,
/// `len - 1`.
pub fn index_width(len: usize) -> (w: usize)
    requires
        len >= 1,
    ensures
        w == digit_count((len - 1) as nat),
{
    let mut n: usize = len - 1;
    let mut w: usize = 1;
    while n >= 10
        invariant
            w >= 1,
            len >= 1,
            w + digit_count(n as nat) == 1 + digit_count((len - 1) as nat),
        decreases n,
    {
        proof {
            lemma_digit_count_pos((n / 10) as nat);
            lemma_digit_count_le((len - 1) as nat);
        }
        n = n / 10;
        w += 1;
    }
    w
}

} // verus!
