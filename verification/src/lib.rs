//! Literal find-and-replace over the names and the text of the markdown files
//! of one flat directory, staged so that nothing is half written.
//!
//! A [`run::Run`] decides; the program that drives it does the work on disk.
//! The run hands out one [`protocol::Action`] at a time and takes the
//! [`protocol::Event`] that answers it: the directory is listed, every
//! markdown file is read and its rewritten text staged, every destination is
//! checked for a collision, and only then are the staged files moved into
//! place. Without `write` the run asks for nothing that changes the disk
//! and ends with the counts that a run that writes would reach.
//!
//! - [`text`]: literal search and replacement on strings.
//! - [`lines`]: the lines of a file and their rewriting.
//! - [`paths`]: markdown entries, staged paths, destinations.
//! - [`protocol`]: settings, actions, events, outcomes.
//! - [`model`]: the run as a state machine over plain values.
//! - [`run`]: the run itself.
//! - [`laws`]: what holds of every run.
//! - [`world`]: how a run ends on a disk on which every step succeeds.

pub mod strings;
pub mod text;
pub mod lines;
pub mod paths;
pub mod protocol;
pub mod model;
pub mod run;
pub mod laws;
pub mod world;
