//! An interactive job-control shell, verified.
//!
//! The library holds the shell's logic: the command-line grammar
//! ([`parse`]), the worker's job, group and process tables with their
//! coherence invariants ([`state`]), the built-in commands and the
//! reactions to child state changes ([`worker`]), and the line reader's
//! pure decisions ([`reader`]).  The narrow boundary to the operating
//! system lives in [`sys`]; forking, line editing and the message loops are
//! the unverified front end's job.
//!
//! Two verified container exercises ship alongside: a doubly linked list
//! ([`dlist`]) and an array-backed list ([`arraystack`]).

pub mod arraystack;
pub mod dequeue;
pub mod dlist;
pub mod parse;
pub mod reader;
pub mod state;
pub mod sys;
pub mod text;
pub mod worker;
