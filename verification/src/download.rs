//! Waiting for one transfer to finish.
//!
//! The caller polls: it has the manager refreshed, asks [`Download::observe`]
//! what the entries now say of the transfer, does what the answer asks
//! for, and sleeps for [`POLL_INTERVAL_MS`] before it polls again, until
//! the answer is [`Step::Finish`].

use crate::bytes::Quantity;
use crate::entry::EntryView;
use crate::transmission::{name_index, Transmission};
use vstd::prelude::*;

verus! {

/// The time between two polls, in milliseconds.
pub const POLL_INTERVAL_MS: u64 = 200;

/// How far the transfer that is waited for has come.
#[derive(Clone, Copy, Debug, PartialEq, Eq, Structural)]
pub enum Phase {
    /// No entry with the name has been seen yet.
    Searching,
    /// An entry has been seen, but no data of it.
    Queued,
    /// Data has been received.
    Active,
    /// The transfer is finished.
    Done,
}

/// What the caller is to do after a poll.
#[derive(Clone, Copy, Debug, PartialEq, Eq, Structural)]
pub enum Step {
    /// Nothing to show: poll again.
    Wait,
    /// Show that `position` whole bytes are there, and poll again. With
    /// `restart`, the first data has just come in: progress is measured
    /// anew from here, so that the time spent waiting does not count.
    Progress { restart: bool, position: u64 },
    /// The transfer is finished: stop polling.
    Finish,
}

/// The entry that is looked at: the first with the name `name`, if any.
pub open spec fn watched(entries: Seq<EntryView>, name: Seq<char>) -> Option<EntryView> {
    if name_index(entries, name) < entries.len() {
        Some(entries[name_index(entries, name) as int])
    } else {
        None
    }
}

/// The phase after a poll that found `found`.
pub open spec fn next_phase(phase: Phase, found: Option<EntryView>) -> Phase {
    match found {
        None => phase,
        Some(entry) => if entry.is_finished() {
            Phase::Done
        } else if entry.downloaded.mantissa != 0 || phase == Phase::Active {
            Phase::Active
        } else {
            Phase::Queued
        },
    }
}

/// What a poll that found `found` asks the caller to do.
pub open spec fn next_step(phase: Phase, found: Option<EntryView>) -> Step {
    match found {
        None => Step::Wait,
        Some(entry) => if entry.is_finished() {
            Step::Finish
        } else if entry.downloaded.mantissa != 0 {
            Step::Progress {
                restart: phase != Phase::Active,
                position: entry.downloaded.whole() as u64,
            }
        } else {
            Step::Wait
        },
    }
}

/// The wait for the transfer with a given name.
#[derive(Debug)]
pub struct Download {
    name: String,
    phase: Phase,
}

impl Download {
    /// The name of the transfer that is waited for.
    pub closed spec fn name(&self) -> Seq<char> {
        self.name@
    }

    /// How far the transfer has come.
    pub closed spec fn phase(&self) -> Phase {
        self.phase
    }

    /// A wait for the transfer with the name `name`, of which nothing has
    /// been seen yet.
    pub fn new(name: String) -> (download: Download)
        ensures
            download.name() == name@,
            download.phase() == Phase::Searching,
    {
        Download { name, phase: Phase::Searching }
    }

    /// How far the transfer has come.
    pub fn current_phase(&self) -> (phase: Phase)
        ensures
            phase == self.phase(),
    {
        self.phase
    }

    /// Looks at what the manager now knows of the transfer, and says what
    /// the caller is to do.
    pub fn observe(&mut self, manager: &Transmission) -> (step: Step)
        ensures
            final(self).name() == old(self).name(),
            final(self).phase() == next_phase(
                old(self).phase(),
                watched(manager@, old(self).name()),
            ),
            step == next_step(old(self).phase(), watched(manager@, old(self).name())),
    {
        match manager.get_by_name(self.name.as_str()) {
            None => Step::Wait,
            Some(entry) => {
                if entry.is_finished() {
                    self.phase = Phase::Done;
                    Step::Finish
                } else if !entry.downloaded().is_zero() {
                    let restart = !matches!(self.phase, Phase::Active);
                    self.phase = Phase::Active;
                    Step::Progress { restart, position: entry.downloaded().whole() }
                } else {
                    if !matches!(self.phase, Phase::Active) {
                        self.phase = Phase::Queued;
                    }
                    Step::Wait
                }
            },
        }
    }
}

} // verus!
