//! The compiled regular expression that code is generated for.

use std::collections::{BTreeMap, BTreeSet};
use vstd::prelude::*;

verus! {

/// One state of the automaton.
#[derive(Debug)]
pub struct DFAStateNode {
    /// What kind of state this is: `"accept"` for an accepting one.
    pub state_type: String,
    /// The number of the state. The automaton starts in state 0.
    pub state_id: usize,
    /// The bytes that lead from here to another state, by the number of that state.
    pub transitions: BTreeMap<usize, BTreeSet<u8>>,
}

/// A deterministic finite automaton over bytes.
#[derive(Debug)]
pub struct DFAGraph {
    pub states: Vec<DFAStateNode>,
}

/// The parts of the match to extract.
#[derive(Debug)]
pub struct SubstringDefinitions {
    /// For each substring the transitions, from state to state, that read its bytes.
    pub substring_ranges: Vec<BTreeSet<(usize, usize)>>,
}

/// A regular expression with the automaton that recognises it.
#[derive(Debug)]
pub struct RegexAndDFA {
    /// The regular expression as it was written.
    pub regex_pattern: String,
    /// The automaton.
    pub dfa: DFAGraph,
    /// Whether the expression ends in `$`: nothing may follow the match.
    pub has_end_anchor: bool,
    /// The parts of the match to extract.
    pub substrings: SubstringDefinitions,
}

} // verus!
