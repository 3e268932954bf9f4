//! Noir code for regular expressions.
//!
//! A regular expression comes as a deterministic automaton. From it this library makes the
//! source text of a Noir program that checks whether an input matches and, on demand, extracts
//! parts of the match:
//!
//! - [`structs`] holds the regular expression and its automaton,
//! - [`table`] lays the transitions of the automaton out as a lookup table,
//! - [`lookup`] shows that this table is the automaton,
//! - [`states`] tells the rows and the entries of the table by the states of the automaton,
//! - [`noir`] writes the program, with the fixed text in [`template`],
//! - [`reading`] shows what can be told from the text of a program,
//! - [`conditions`] reads the conditions in the text back, and [`execution`] carries out the
//!   statements in the declaration of the table,
//! - [`frames`] says which parts of the text vary, and [`programs`] which parts a program has,
//! - [`accesses`] shows that a program with a sparse table is the one with an array, with the
//!   accesses to the table written by key; [`fixed_text`] helps it with the fixed text,
//! - [`text`] and [`ordered`] hold what the others need of texts and of ordered sets.

pub mod accesses;
pub mod conditions;
pub mod execution;
pub mod fixed_text;
pub mod frames;
pub mod lookup;
pub mod noir;
pub mod ordered;
pub mod programs;
pub mod reading;
pub mod states;
pub mod structs;
pub mod table;
pub mod template;
pub mod text;
