//! A finite-state automaton that decides, byte by byte, whether an input
//! contains a fixed target sequence as a case-insensitive (ASCII) subsequence.
//!
//! The automaton owns a borrowed target pattern; all matching state lives in a
//! caller-held integer counting how many leading pattern bytes have been
//! matched so far. The traversal engine that drives the automaton threads this
//! integer through `accept` and consults `is_match`, `can_match` and
//! `will_always_match` to prune its search.

use vstd::prelude::*;
use vstd::string::StringSliceAdditionalSpecFns;

pub mod model;

use crate::model::{has_upper, step};

verus! {

/// An automaton that matches if the input contains a specific subsequence
/// ignoring ASCII case.
#[derive(Clone, Copy, Debug)]
pub struct SubseqAsciiCaseless<'a> {
    subseq: &'a [u8],
}

impl<'a> View for SubseqAsciiCaseless<'a> {
    type V = Seq<u8>;

    closed spec fn view(&self) -> Seq<u8> {
        self.subseq@
    }
}

impl<'a> SubseqAsciiCaseless<'a> {
    /// Constructs an automaton that matches input containing the specified
    /// subsequence ignoring ASCII case.
    ///
    /// A pattern with an ASCII uppercase byte could never be matched under the
    /// lowercasing transition rule, so such patterns are ruled out here.
    pub fn new(subseq: &'a str) -> (r: Self)
        requires
            !has_upper(subseq.spec_bytes()),
        ensures
            r@ == subseq.spec_bytes(),
    {
        Self::new_unchecked(subseq)
    }

    /// Same as `new()` but without the uppercase restriction on the pattern.
    ///
    /// An automaton built from a pattern that contains an ASCII uppercase
    /// byte never matches (see `model::lemma_upper_pattern_never_matches`).
    pub fn new_unchecked(subseq: &'a str) -> (r: Self)
        ensures
            r@ == subseq.spec_bytes(),
    {
        SubseqAsciiCaseless { subseq: subseq.as_bytes() }
    }

    /// The start state: zero pattern bytes matched yet.
    pub fn start(&self) -> (r: usize)
        ensures
            r == 0,
    {
        0
    }

    /// True iff the whole pattern has been matched as a subsequence of the
    /// input consumed so far.
    pub fn is_match(&self, state: &usize) -> (r: bool)
        ensures
            r == (*state == self@.len()),
    {
        *state == self.subseq.len()
    }

    /// True for every state: since any byte may still follow, no state is
    /// ever provably dead, so the automaton never prunes on its own.
    pub fn can_match(&self, _state: &usize) -> (r: bool)
        ensures
            r,
    {
        true
    }

    /// True iff the automaton has already matched: the full-match state is
    /// absorbing, so every extension of the input keeps matching.
    pub fn will_always_match(&self, state: &usize) -> (r: bool)
        ensures
            r == (*state == self@.len()),
    {
        self.is_match(state)
    }

    /// The transition function: consume `byte` from `state`. A full match is
    /// sticky; otherwise the state advances exactly when `byte`, folded to
    /// lowercase, equals the next unmatched pattern byte.
    pub fn accept(&self, state: &usize, byte: u8) -> (r: usize)
        requires
            *state <= self@.len(),
        ensures
            r == step(self@, *state as int, byte),
            *state <= r <= self@.len(),
    {
        if self.is_match(state) {
            return *state;
        }
        if ascii_lower(byte) == self.subseq[*state] {
            *state + 1
        } else {
            *state
        }
    }
}

/// ASCII case folding of one byte.
fn ascii_lower(byte: u8) -> (r: u8)
    ensures
        r == model::lower(byte),
{
    if 65 <= byte && byte <= 90 {
        byte + 32
    } else {
        byte
    }
}

} // verus!
