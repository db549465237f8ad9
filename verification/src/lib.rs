//! Ohara: web scrape, clean, index, graph extraction and retrieval, as verified decisions.
//!
//! The library holds the logic of the pipeline: the control store and its job state machine
//! ([`control`]), the knowledge plane ([`knowledge`], [`graph`]), the fetch ladder ([`engine`]), and
//! what the processes decide about the artifacts they exchange ([`scraper`], [`cleaning`],
//! [`indexer`], [`retrieval`]). Reading and sending is left to the program around it, which hands the
//! library plain values and carries out what it answers.

use vstd::prelude::*;
use vstd::string::StringExecFns;

use crate::config::ConfigError;
use crate::control::db::DbError;

pub mod artifacts;
pub mod assoc;
pub mod cleaning;
pub mod config;
pub mod control;
pub mod digest;
pub mod embedding;
pub mod engine;
pub mod feed;
pub mod graph;
pub mod indexer;
pub mod knowledge;
pub mod links;
pub mod llm;
pub mod markup;
pub mod ops;
pub mod order;
pub mod ranking;
pub mod reply;
pub mod retrieval;
pub mod rows;
pub mod scraper;
pub mod tally;
pub mod text;
pub mod web;

verus! {

/// Retry classification shared by every error taxonomy.
#[derive(Debug, Clone, Copy, PartialEq, Eq, Hash, Structural)]
pub enum Class {
    /// Transient: retry with backoff.
    Retry,
    /// Permanent: retrying cannot succeed.
    Permanent,
    /// Fatal: stop scheduling, drain, reconcile at next boot.
    Fatal,
}

/// Errors that abort startup before the worker loop begins.
#[derive(Debug)]
pub enum BootError {
    /// A knob failed validation.
    Config(ConfigError),
    /// The control store could not be opened or migrated.
    Control(DbError),
    /// A data directory could not be created.
    Io(String),
    /// The worker loop task failed unexpectedly.
    Worker(String),
    /// A fatal stage error drained the worker; the boot sweep finishes recovery on the next start.
    Fatal(String),
}

impl BootError {
    /// The message of the error.
    pub open spec fn text(self) -> Seq<char> {
        match self {
            BootError::Config(e) => "invalid configuration: "@ + e.text(),
            BootError::Control(e) => "control store: "@ + e.text(),
            BootError::Io(m) => "io: "@ + m@,
            BootError::Worker(m) => "worker loop failed: "@ + m@,
            BootError::Fatal(m) => "fatal stage failure: "@ + m@,
        }
    }

    /// The message of the error.
    pub fn message(&self) -> (res: String)
        ensures
            res@ == self.text(),
    {
        match self {
            BootError::Config(e) => {
                let mut s = "invalid configuration: ".to_owned();
                s.append(e.message().as_str());
                s
            },
            BootError::Control(e) => {
                let mut s = "control store: ".to_owned();
                s.append(e.message().as_str());
                s
            },
            BootError::Io(m) => {
                let mut s = "io: ".to_owned();
                s.append(m.as_str());
                s
            },
            BootError::Worker(m) => {
                let mut s = "worker loop failed: ".to_owned();
                s.append(m.as_str());
                s
            },
            BootError::Fatal(m) => {
                let mut s = "fatal stage failure: ".to_owned();
                s.append(m.as_str());
                s
            },
        }
    }
}

} // verus!
