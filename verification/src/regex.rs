//! Regular expressions to search for.

use crate::automaton::{dfa_build, Automaton, Dense};
pub use regex_automata::dfa::dense::BuildError;
use vstd::prelude::*;

verus! {

/// Maximum size of an automaton, to prevent pathological regexes taking down the entire system.
pub const MAX_DFA_SIZE: usize = 100_000_000;

/// What `char::is_uppercase` returns.
pub uninterp spec fn char_is_uppercase(c: char) -> bool;

/// Calls `char::is_uppercase` of the standard library.
///
/// Taken on trust: the answer depends on the character alone.
#[verifier::external_body]
fn is_uppercase(c: char) -> (r: bool)
    ensures
        r == char_is_uppercase(c),
{
    c.is_uppercase()
}

/// Whether `text` holds a letter in upper case.
pub open spec fn has_uppercase(text: Seq<char>) -> bool {
    exists|i: int| 0 <= i < text.len() && char_is_uppercase(#[trigger] text[i])
}

/// Whether `text` holds a letter in upper case.
fn any_uppercase(text: &str) -> (r: bool)
    ensures
        r == has_uppercase(text@),
{
    for c in it: text.chars()
        invariant
            it.seq() == text@,
            forall|i: int| 0 <= i < it.index() ==> !char_is_uppercase(#[trigger] text@[i]),
    {
        if is_uppercase(c) {
            assert(char_is_uppercase(text@[it.index() as int]));
            return true;
        }
    }
    false
}

/// Terminal regex search state: an automaton that reads forwards, and one that reads backwards.
#[derive(Debug)]
pub struct RegexSearch<A = Dense> {
    pub dfa: A,
    pub rdfa: A,
}

impl<A: Automaton> RegexSearch<A> {
    /// What holds of every search state.
    pub open spec fn wf(&self) -> bool {
        &&& self.dfa.wf()
        &&& self.rdfa.wf()
    }
}

impl RegexSearch<Dense> {
    /// Builds the forward and backward search automata. Letter case only counts where the
    /// expression has a letter in upper case.
    pub fn new(search: &str) -> (r: Result<RegexSearch<Dense>, Box<BuildError>>)
        ensures
            ({
                let case_insensitive = !has_uppercase(search@);
                match dfa_build(search@, case_insensitive, false, MAX_DFA_SIZE) {
                    Err(error) => r matches Err(e) && *e == error,
                    Ok(dfa) => match dfa_build(search@, case_insensitive, true, MAX_DFA_SIZE) {
                        Err(error) => r matches Err(e) && *e == error,
                        Ok(rdfa) => r matches Ok(regex) && regex.dfa == (Dense { dfa })
                            && regex.rdfa == (Dense { dfa: rdfa }),
                    },
                }
            }),
            r matches Ok(regex) ==> regex.wf(),
    {
        let case_insensitive = !any_uppercase(search);

        // Create the automaton for left-to-right search.
        let dfa = match Dense::build(search, case_insensitive, false, MAX_DFA_SIZE) {
            Ok(dfa) => dfa,
            Err(error) => {
                return Err(Box::new(error));
            },
        };

        // Create the automaton for right-to-left search.
        let rdfa = match Dense::build(search, case_insensitive, true, MAX_DFA_SIZE) {
            Ok(rdfa) => rdfa,
            Err(error) => {
                return Err(Box::new(error));
            },
        };

        Ok(RegexSearch { dfa, rdfa })
    }
}

impl Clone for RegexSearch<Dense> {
    fn clone(&self) -> (r: RegexSearch<Dense>)
        ensures
            r == *self,
    {
        RegexSearch { dfa: self.dfa.clone(), rdfa: self.rdfa.clone() }
    }
}

} // verus!
