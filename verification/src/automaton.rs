//! Finite automata that read bytes: what the search asks of them, and the compiled regular
//! expressions that provide it.

use regex_automata::dfa::dense::{BuildError, Builder, Config, DFA};
use regex_automata::dfa::Automaton as _;
use regex_automata::nfa::thompson::Config as ThompsonConfig;
use regex_automata::util::primitives::StateID;
use regex_automata::util::syntax::Config as SyntaxConfig;
use regex_automata::{Anchored, Input};
use vstd::prelude::*;

verus! {

/// A deterministic automaton over bytes.
///
/// Matches are reported one byte late: a state that matches says that the text matched before the
/// byte that led to it was read. Where no byte follows, [`Automaton::next_eoi_state`] stands in.
pub trait Automaton {
    /// What holds of every automaton that a search can run.
    spec fn wf(&self) -> bool;

    /// Whether `state` is a state of the automaton.
    spec fn has_state(&self, state: u32) -> bool;

    /// The state before the first byte. An anchored search only finds matches that begin with the
    /// first byte.
    spec fn initial(&self, anchored: bool) -> u32;

    /// The state after `byte`.
    spec fn next(&self, state: u32, byte: u8) -> u32;

    /// The state after the end of the text.
    spec fn finish(&self, state: u32) -> u32;

    /// Whether the text matched before the last byte.
    spec fn matches(&self, state: u32) -> bool;

    /// Whether no state that matches can be reached any more.
    spec fn dead(&self, state: u32) -> bool;

    /// A dead state is never left, and does not match at the end of the text either.
    proof fn dead_is_final(&self, state: u32, byte: u8)
        requires
            self.wf(),
            self.dead(state),
        ensures
            self.dead(self.next(state, byte)),
            !self.matches(self.next(state, byte)),
            !self.matches(self.finish(state)),
    ;

    fn start_state(&self, anchored: bool) -> (state: u32)
        requires
            self.wf(),
        ensures
            state == self.initial(anchored),
            self.has_state(state),
    ;

    fn next_state(&self, state: u32, byte: u8) -> (next: u32)
        requires
            self.wf(),
            self.has_state(state),
        ensures
            next == self.next(state, byte),
            self.has_state(next),
    ;

    fn next_eoi_state(&self, state: u32) -> (next: u32)
        requires
            self.wf(),
            self.has_state(state),
        ensures
            next == self.finish(state),
    ;

    fn is_match_state(&self, state: u32) -> (r: bool)
        requires
            self.wf(),
        ensures
            r == self.matches(state),
    ;

    fn is_dead_state(&self, state: u32) -> (r: bool)
        requires
            self.wf(),
        ensures
            r == self.dead(state),
    ;
}

/// The dense automaton of the `regex_automata` crate.
#[verifier::external_type_specification]
#[verifier::external_body]
#[verifier::reject_recursive_types(T)]
pub struct ExDfa<T>(DFA<T>);

/// The error with which the `regex_automata` crate refuses to build an automaton.
#[verifier::external_type_specification]
#[verifier::external_body]
pub struct ExBuildError(BuildError);

/// The states of `dfa` from which every byte, and the end of the text, leads to one of them again.
pub uninterp spec fn dfa_states(dfa: DFA<Vec<u32>>) -> Set<u32>;

/// What `start_state_forward` returns for an empty text.
pub uninterp spec fn dfa_start(dfa: DFA<Vec<u32>>, anchored: bool) -> Option<u32>;

/// What `next_state` returns.
pub uninterp spec fn dfa_next(dfa: DFA<Vec<u32>>, state: u32, byte: u8) -> u32;

/// What `next_eoi_state` returns.
pub uninterp spec fn dfa_finish(dfa: DFA<Vec<u32>>, state: u32) -> u32;

/// What `is_match_state` returns.
pub uninterp spec fn dfa_matches(dfa: DFA<Vec<u32>>, state: u32) -> bool;

/// What `Builder::build` returns.
pub uninterp spec fn dfa_build(
    pattern: Seq<char>,
    case_insensitive: bool,
    reverse: bool,
    size_limit: usize,
) -> Result<DFA<Vec<u32>>, BuildError>;

/// What holds of an automaton that was built: it has a start state for anchored and for unanchored
/// searches, both of them states from which no byte leads out of its table, and its state 0 is
/// dead, so that it leads to itself and does not match.
pub open spec fn dfa_built(dfa: DFA<Vec<u32>>) -> bool {
    &&& forall|anchored: bool| #[trigger]
        dfa_start(dfa, anchored) matches Some(state) && dfa_states(dfa).contains(state)
    &&& forall|byte: u8| #[trigger] dfa_next(dfa, 0, byte) == 0
    &&& dfa_finish(dfa, 0) == 0
    &&& !dfa_matches(dfa, 0)
}

/// Calls `dense::Builder::build` of `regex_automata`, with the letter case, the reading direction
/// and the size limit set and everything else at its default.
///
/// Taken on trust: the outcome depends on the arguments alone, and [`dfa_built`] holds of an
/// automaton that is built.
#[verifier::external_body]
fn build_dfa(
    pattern: &str,
    case_insensitive: bool,
    reverse: bool,
    size_limit: usize,
) -> (r: Result<DFA<Vec<u32>>, BuildError>)
    ensures
        r == dfa_build(pattern@, case_insensitive, reverse, size_limit),
        r matches Ok(dfa) ==> dfa_built(dfa),
{
    Builder::new()
        .configure(Config::new().dfa_size_limit(Some(size_limit)))
        .syntax(SyntaxConfig::new().case_insensitive(case_insensitive))
        .thompson(ThompsonConfig::new().reverse(reverse))
        .build(pattern)
}

/// Calls `Automaton::start_state_forward` of `regex_automata` for an empty text.
///
/// Taken on trust: the state depends on the automaton and on `anchored` alone. `None` stands for
/// an automaton that was built without such a start state.
#[verifier::external_body]
fn dfa_start_state(dfa: &DFA<Vec<u32>>, anchored: bool) -> (r: Option<u32>)
    ensures
        r == dfa_start(*dfa, anchored),
{
    let mode = if anchored { Anchored::Yes } else { Anchored::No };
    let input = Input::new(&[]).anchored(mode);
    match dfa.start_state_forward(&input) {
        Ok(state) => Some(state.as_u32()),
        Err(_) => None,
    }
}

/// Calls `Automaton::next_state` of `regex_automata`.
///
/// Taken on trust: the state depends on the arguments alone, and no byte leads out of
/// [`dfa_states`].
#[verifier::external_body]
fn dfa_next_state(dfa: &DFA<Vec<u32>>, state: u32, byte: u8) -> (next: u32)
    requires
        dfa_states(*dfa).contains(state),
    ensures
        next == dfa_next(*dfa, state, byte),
        dfa_states(*dfa).contains(next),
{
    dfa.next_state(StateID::new_unchecked(state as usize), byte).as_u32()
}

/// Calls `Automaton::next_eoi_state` of `regex_automata`.
///
/// Taken on trust: the state depends on the arguments alone.
#[verifier::external_body]
fn dfa_next_eoi_state(dfa: &DFA<Vec<u32>>, state: u32) -> (next: u32)
    requires
        dfa_states(*dfa).contains(state),
    ensures
        next == dfa_finish(*dfa, state),
{
    dfa.next_eoi_state(StateID::new_unchecked(state as usize)).as_u32()
}

/// Calls `Automaton::is_match_state` of `regex_automata`.
///
/// Taken on trust: the answer depends on the arguments alone.
#[verifier::external_body]
fn dfa_is_match_state(dfa: &DFA<Vec<u32>>, state: u32) -> (r: bool)
    ensures
        r == dfa_matches(*dfa, state),
{
    dfa.is_match_state(StateID::new_unchecked(state as usize))
}

/// Calls `Automaton::is_dead_state` of `regex_automata`.
///
/// Taken on trust: the dead state is the one with the identifier 0.
#[verifier::external_body]
fn dfa_is_dead_state(dfa: &DFA<Vec<u32>>, state: u32) -> (r: bool)
    ensures
        r == (state == 0),
{
    dfa.is_dead_state(StateID::new_unchecked(state as usize))
}

/// Calls `Clone::clone` of the automaton.
///
/// Taken on trust: the copy is the same automaton.
#[verifier::external_body]
fn dfa_clone(dfa: &DFA<Vec<u32>>) -> (r: DFA<Vec<u32>>)
    ensures
        r == *dfa,
{
    dfa.clone()
}

/// A compiled regular expression.
#[derive(Debug)]
pub struct Dense {
    pub dfa: DFA<Vec<u32>>,
}

impl Dense {
    /// Compiles `pattern`.
    pub fn build(
        pattern: &str,
        case_insensitive: bool,
        reverse: bool,
        size_limit: usize,
    ) -> (r: Result<Dense, BuildError>)
        ensures
            match dfa_build(pattern@, case_insensitive, reverse, size_limit) {
                Ok(dfa) => r == Ok::<Dense, BuildError>(Dense { dfa }),
                Err(error) => r == Err::<Dense, BuildError>(error),
            },
            r matches Ok(dense) ==> dense.wf(),
    {
        match build_dfa(pattern, case_insensitive, reverse, size_limit) {
            Ok(dfa) => Ok(Dense { dfa }),
            Err(error) => Err(error),
        }
    }
}

impl Clone for Dense {
    fn clone(&self) -> (r: Dense)
        ensures
            r == *self,
    {
        Dense { dfa: dfa_clone(&self.dfa) }
    }
}

impl Automaton for Dense {
    open spec fn wf(&self) -> bool {
        dfa_built(self.dfa)
    }

    open spec fn has_state(&self, state: u32) -> bool {
        dfa_states(self.dfa).contains(state)
    }

    open spec fn initial(&self, anchored: bool) -> u32 {
        dfa_start(self.dfa, anchored).unwrap()
    }

    open spec fn next(&self, state: u32, byte: u8) -> u32 {
        dfa_next(self.dfa, state, byte)
    }

    open spec fn finish(&self, state: u32) -> u32 {
        dfa_finish(self.dfa, state)
    }

    open spec fn matches(&self, state: u32) -> bool {
        dfa_matches(self.dfa, state)
    }

    open spec fn dead(&self, state: u32) -> bool {
        state == 0
    }

    proof fn dead_is_final(&self, state: u32, byte: u8) {
    }

    fn start_state(&self, anchored: bool) -> (state: u32) {
        dfa_start_state(&self.dfa, anchored).unwrap()
    }

    fn next_state(&self, state: u32, byte: u8) -> (next: u32) {
        dfa_next_state(&self.dfa, state, byte)
    }

    fn next_eoi_state(&self, state: u32) -> (next: u32) {
        dfa_next_eoi_state(&self.dfa, state)
    }

    fn is_match_state(&self, state: u32) -> (r: bool) {
        dfa_is_match_state(&self.dfa, state)
    }

    fn is_dead_state(&self, state: u32) -> (r: bool) {
        dfa_is_dead_state(&self.dfa, state)
    }
}

} // verus!
