//! The mathematical model of the matcher: ASCII case folding, the transition
//! function, runs of the automaton over whole inputs, and the subsequence
//! relation the automaton decides.

use vstd::prelude::*;

verus! {

/// Whether `b` is an ASCII uppercase letter, `'A'` (65) through `'Z'` (90).
pub open spec fn is_upper(b: u8) -> bool {
    65 <= b && b <= 90
}

/// ASCII case folding of one byte: uppercase letters map to their lowercase
/// counterpart, every other byte passes through unchanged.
pub open spec fn lower(b: u8) -> u8 {
    if is_upper(b) {
        (b + 32) as u8
    } else {
        b
    }
}

/// Whether `s` contains an ASCII uppercase byte.
pub open spec fn has_upper(s: Seq<u8>) -> bool {
    exists|i: int| 0 <= i < s.len() && is_upper(s[i])
}

/// `s` with every byte folded to lowercase.
pub open spec fn fold_lower(s: Seq<u8>) -> Seq<u8> {
    Seq::new(s.len(), |i: int| lower(s[i]))
}

/// The transition function on pattern `pat`: from `state`, consuming `byte`.
/// A full match (`state == pat.len()`) is absorbing; otherwise the state
/// advances exactly when the folded byte equals the next unmatched pattern
/// byte.
pub open spec fn step(pat: Seq<u8>, state: int, byte: u8) -> int
    recommends
        0 <= state <= pat.len(),
{
    if state == pat.len() {
        state
    } else if lower(byte) == pat[state] {
        state + 1
    } else {
        state
    }
}

/// The state reached from `state` after consuming all of `input`, in order.
pub open spec fn run(pat: Seq<u8>, state: int, input: Seq<u8>) -> int
    decreases input.len(),
{
    if input.len() == 0 {
        state
    } else {
        run(pat, step(pat, state, input[0]), input.skip(1))
    }
}

/// Whether `needle` can be obtained from `hay` by deleting zero or more
/// bytes without reordering the remainder.
pub open spec fn is_subsequence(needle: Seq<u8>, hay: Seq<u8>) -> bool
    decreases hay.len(),
{
    if needle.len() == 0 {
        true
    } else if hay.len() == 0 {
        false
    } else {
        (needle[0] == hay[0] && is_subsequence(needle.skip(1), hay.skip(1)))
            || is_subsequence(needle, hay.skip(1))
    }
}

/// Prepending a byte to the haystack preserves the subsequence relation.
proof fn lemma_subsequence_extend(needle: Seq<u8>, hay: Seq<u8>)
    requires
        hay.len() > 0,
        is_subsequence(needle, hay.skip(1)),
    ensures
        is_subsequence(needle, hay),
{
}

/// A subsequence remains one after its first byte is dropped.
proof fn lemma_subsequence_drop_needle(needle: Seq<u8>, hay: Seq<u8>)
    requires
        needle.len() > 0,
        is_subsequence(needle, hay),
    ensures
        is_subsequence(needle.skip(1), hay),
    decreases hay.len(),
{
    if needle[0] == hay[0] && is_subsequence(needle.skip(1), hay.skip(1)) {
        lemma_subsequence_extend(needle.skip(1), hay);
    } else {
        lemma_subsequence_drop_needle(needle, hay.skip(1));
        lemma_subsequence_extend(needle.skip(1), hay);
    }
}

/// The exchange argument behind greedy matching: when the first bytes agree,
/// taking the match at once loses nothing.
proof fn lemma_subsequence_greedy(needle: Seq<u8>, hay: Seq<u8>)
    requires
        needle.len() > 0,
        hay.len() > 0,
        needle[0] == hay[0],
    ensures
        is_subsequence(needle, hay) <==> is_subsequence(needle.skip(1), hay.skip(1)),
{
    if is_subsequence(needle, hay) && !is_subsequence(needle.skip(1), hay.skip(1)) {
        lemma_subsequence_drop_needle(needle, hay.skip(1));
    }
}

/// One transition never moves the state backward.
pub proof fn lemma_step_monotonic(pat: Seq<u8>, state: int, byte: u8)
    ensures
        state <= step(pat, state, byte),
{
}

/// A run never moves the state backward.
pub proof fn lemma_run_monotonic(pat: Seq<u8>, state: int, input: Seq<u8>)
    ensures
        state <= run(pat, state, input),
    decreases input.len(),
{
    if input.len() > 0 {
        lemma_run_monotonic(pat, step(pat, state, input[0]), input.skip(1));
    }
}

/// A run keeps the state within the bounds of the state space, `0` through
/// the pattern length.
pub proof fn lemma_run_in_range(pat: Seq<u8>, state: int, input: Seq<u8>)
    requires
        0 <= state <= pat.len(),
    ensures
        0 <= run(pat, state, input) <= pat.len(),
    decreases input.len(),
{
    if input.len() > 0 {
        lemma_run_in_range(pat, step(pat, state, input[0]), input.skip(1));
    }
}

/// A run over a concatenation is the run over the second part started from
/// the state the first part reaches.
pub proof fn lemma_run_append(pat: Seq<u8>, state: int, a: Seq<u8>, b: Seq<u8>)
    ensures
        run(pat, state, a + b) == run(pat, run(pat, state, a), b),
    decreases a.len(),
{
    if a.len() == 0 {
        assert(a + b =~= b);
    } else {
        assert((a + b).skip(1) =~= a.skip(1) + b);
        lemma_run_append(pat, step(pat, state, a[0]), a.skip(1), b);
    }
}

/// The sequence of states visited while consuming an input is non-decreasing:
/// a longer prefix never reaches a smaller state.
pub proof fn lemma_run_states_non_decreasing(pat: Seq<u8>, state: int, input: Seq<u8>, j: int, k: int)
    requires
        0 <= j <= k <= input.len(),
    ensures
        run(pat, state, input.take(j)) <= run(pat, state, input.take(k)),
{
    assert(input.take(k) =~= input.take(j) + input.subrange(j, k));
    lemma_run_append(pat, state, input.take(j), input.subrange(j, k));
    lemma_run_monotonic(pat, run(pat, state, input.take(j)), input.subrange(j, k));
}

/// Stickiness: from the full-match state, every input leaves the state where
/// it is, so `is_match` and `will_always_match` stay true forever.
pub proof fn lemma_sticky(pat: Seq<u8>, input: Seq<u8>)
    ensures
        run(pat, pat.len() as int, input) == pat.len(),
    decreases input.len(),
{
    if input.len() > 0 {
        lemma_sticky(pat, input.skip(1));
    }
}

/// The invariant behind the main theorem: from state `state`, a run consumes
/// the rest of the pattern iff that rest is a subsequence of the folded input.
proof fn lemma_run_reaches_iff_subsequence(pat: Seq<u8>, state: int, input: Seq<u8>)
    requires
        0 <= state <= pat.len(),
    ensures
        run(pat, state, input) == pat.len() <==> is_subsequence(
            pat.skip(state),
            fold_lower(input),
        ),
    decreases input.len(),
{
    let folded = fold_lower(input);
    if input.len() == 0 {
        assert(folded =~= Seq::<u8>::empty());
    } else {
        let rest = input.skip(1);
        assert(folded.skip(1) =~= fold_lower(rest));
        if state == pat.len() {
            lemma_run_reaches_iff_subsequence(pat, state, rest);
        } else if lower(input[0]) == pat[state] {
            lemma_run_reaches_iff_subsequence(pat, state + 1, rest);
            let needle = pat.skip(state);
            assert(needle[0] == pat[state]);
            assert(needle.skip(1) =~= pat.skip(state + 1));
            lemma_subsequence_greedy(needle, folded);
        } else {
            lemma_run_reaches_iff_subsequence(pat, state, rest);
            assert(pat.skip(state)[0] == pat[state]);
        }
    }
}

/// The main theorem: starting from the start state, the automaton ends in the
/// accepting state iff the pattern is a subsequence of the input with the
/// input's ASCII letters folded to lowercase.
pub proof fn lemma_match_iff_subsequence(pat: Seq<u8>, input: Seq<u8>)
    ensures
        run(pat, 0, input) == pat.len() <==> is_subsequence(pat, fold_lower(input)),
{
    lemma_run_reaches_iff_subsequence(pat, 0, input);
    assert(pat.skip(0) =~= pat);
}

/// Folding to lowercase changes nothing in a sequence without uppercase
/// bytes.
pub proof fn lemma_fold_lower_of_folded(s: Seq<u8>)
    requires
        !has_upper(s),
    ensures
        fold_lower(s) == s,
{
    assert forall|i: int| 0 <= i < s.len() implies fold_lower(s)[i] == s[i] by {
        assert(!is_upper(s[i]));
    }
    assert(fold_lower(s) =~= s);
}

/// The main theorem in symmetric form: for a pattern without uppercase bytes,
/// the automaton accepts iff the pattern is a subsequence of the input when
/// both are compared with ASCII letters folded to lowercase.
pub proof fn lemma_match_iff_subsequence_folded(pat: Seq<u8>, input: Seq<u8>)
    requires
        !has_upper(pat),
    ensures
        run(pat, 0, input) == pat.len() <==> is_subsequence(
            fold_lower(pat),
            fold_lower(input),
        ),
{
    lemma_match_iff_subsequence(pat, input);
    lemma_fold_lower_of_folded(pat);
}

/// Case folding never yields an uppercase byte.
proof fn lemma_lower_not_upper(b: u8)
    ensures
        !is_upper(lower(b)),
{
}

/// A state at or below an uppercase pattern position stays there: no folded
/// input byte can ever equal the uppercase byte waiting at position `i`.
proof fn lemma_run_stuck_at_upper(pat: Seq<u8>, state: int, input: Seq<u8>, i: int)
    requires
        0 <= state <= i < pat.len(),
        is_upper(pat[i]),
    ensures
        run(pat, state, input) <= i,
    decreases input.len(),
{
    if input.len() > 0 {
        lemma_lower_not_upper(input[0]);
        lemma_run_stuck_at_upper(pat, step(pat, state, input[0]), input.skip(1), i);
    }
}

/// A pattern that contains an ASCII uppercase byte can never be matched:
/// from the start state, no input of any length reaches the accepting state.
pub proof fn lemma_upper_pattern_never_matches(pat: Seq<u8>, input: Seq<u8>)
    requires
        has_upper(pat),
    ensures
        run(pat, 0, input) < pat.len(),
{
    let i = choose|i: int| 0 <= i < pat.len() && is_upper(pat[i]);
    lemma_run_stuck_at_upper(pat, 0, input, i);
}

} // verus!
