//! One transfer as the library knows it: its status and the record kept of it.

use crate::bytes::{Bytes, Quantity};
use crate::error::Error;
use crate::report::{LineView, ReportLine};
use crate::text::{chars_of, equals_str};
use vstd::prelude::*;

verus! {

/// The states in which the daemon reports a transfer.
#[derive(Clone, Copy, Debug, PartialEq, Eq, Structural)]
pub enum Status {
    Stopped,
    Checking,
    Downloading,
    Seeding,
    Queued,
    Verifying,
    Error,
}

/// The status that a status token of the report names, if it names one.
pub open spec fn status_of(token: Seq<char>) -> Option<Status> {
    if token == "Stopped"@ {
        Some(Status::Stopped)
    } else if token == "Checking"@ {
        Some(Status::Checking)
    } else if token == "Downloading"@ {
        Some(Status::Downloading)
    } else if token == "Seeding"@ {
        Some(Status::Seeding)
    } else if token == "Queued"@ {
        Some(Status::Queued)
    } else if token == "Verifying"@ {
        Some(Status::Verifying)
    } else if token == "Error"@ {
        Some(Status::Error)
    } else {
        None
    }
}

impl Status {
    /// Reads a status token. Any text but the seven names is an error.
    pub fn from_str(s: &str) -> (res: Result<Status, Error>)
        ensures
            match res {
                Ok(status) => status_of(s@) == Some(status),
                Err(e) => status_of(s@) is None && e == Error::InvalidEntryFormat,
            },
    {
        let chars = chars_of(s);
        Status::from_chars(chars.as_slice())
    }

    /// Reads a status token from its characters.
    pub fn from_chars(token: &[char]) -> (res: Result<Status, Error>)
        ensures
            match res {
                Ok(status) => status_of(token@) == Some(status),
                Err(e) => status_of(token@) is None && e == Error::InvalidEntryFormat,
            },
    {
        if equals_str(token, "Stopped") {
            Ok(Status::Stopped)
        } else if equals_str(token, "Checking") {
            Ok(Status::Checking)
        } else if equals_str(token, "Downloading") {
            Ok(Status::Downloading)
        } else if equals_str(token, "Seeding") {
            Ok(Status::Seeding)
        } else if equals_str(token, "Queued") {
            Ok(Status::Queued)
        } else if equals_str(token, "Verifying") {
            Ok(Status::Verifying)
        } else if equals_str(token, "Error") {
            Ok(Status::Error)
        } else {
            Err(Error::InvalidEntryFormat)
        }
    }
}

/// The mathematical value of an [`Entry`].
pub struct EntryView {
    pub id: u64,
    pub name: Seq<char>,
    pub status: Status,
    pub downloaded: Quantity,
    /// Whether all of the transfer's data is present.
    pub complete: bool,
}

impl EntryView {
    /// Whether the transfer is finished: all its data is present and the
    /// daemon reports it as seeding.
    pub open spec fn is_finished(self) -> bool {
        self.complete && self.status == Status::Seeding
    }
}

/// The record that a line of the report gives of its transfer. All of the
/// transfer's data is present if and only if the line reports `100%`.
pub open spec fn entry_of(line: LineView) -> EntryView {
    EntryView {
        id: line.id,
        name: line.name,
        status: line.status,
        downloaded: line.downloaded,
        complete: line.percentage == "100%"@,
    }
}

/// The record of one transfer.
#[derive(Clone, Debug, PartialEq)]
pub struct Entry {
    id: u64,
    name: String,
    status: Status,
    downloaded: Bytes,
    complete: bool,
}

impl View for Entry {
    type V = EntryView;

    closed spec fn view(&self) -> EntryView {
        EntryView {
            id: self.id,
            name: self.name@,
            status: self.status,
            downloaded: self.downloaded@,
            complete: self.complete,
        }
    }
}

impl Entry {
    /// The record of a transfer whose data is all present.
    pub fn completed(id: u64, downloaded: Bytes, status: Status, name: String) -> (entry: Entry)
        ensures
            entry@ == (EntryView {
                id,
                name: name@,
                status,
                downloaded: downloaded@,
                complete: true,
            }),
    {
        Entry { id, name, status, downloaded, complete: true }
    }

    /// The record of a transfer that still lacks some of its data.
    pub fn partial(id: u64, downloaded: Bytes, status: Status, name: String) -> (entry: Entry)
        ensures
            entry@ == (EntryView {
                id,
                name: name@,
                status,
                downloaded: downloaded@,
                complete: false,
            }),
    {
        Entry { id, name, status, downloaded, complete: false }
    }

    /// The record that a line of the report gives of its transfer.
    pub fn from_line(line: &ReportLine) -> (entry: Entry)
        ensures
            entry@ == entry_of(line@),
    {
        let name = line.name.clone();
        if equals_str(chars_of(line.percentage.as_str()).as_slice(), "100%") {
            Entry::completed(line.id, line.downloaded, line.status, name)
        } else {
            Entry::partial(line.id, line.downloaded, line.status, name)
        }
    }

    /// The identifier that the daemon gave the transfer.
    pub fn id(&self) -> (id: &u64)
        ensures
            *id == self@.id,
    {
        &self.id
    }

    /// The name under which the transfer is shown and looked up.
    pub fn name(&self) -> (name: &str)
        ensures
            name@ == self@.name,
    {
        self.name.as_str()
    }

    /// The state in which the daemon last reported the transfer.
    pub fn status(&self) -> (status: &Status)
        ensures
            *status == self@.status,
    {
        &self.status
    }

    /// How much of the transfer has been downloaded.
    pub fn downloaded(&self) -> (downloaded: &Bytes)
        ensures
            downloaded@ == self@.downloaded,
    {
        &self.downloaded
    }

    /// Whether the transfer is finished.
    pub fn is_finished(&self) -> (b: bool)
        ensures
            b == self@.is_finished(),
    {
        self.complete && matches!(self.status, Status::Seeding)
    }
}

} // verus!
