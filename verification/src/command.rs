//! The commands by which the daemon is started and told what to do.
//!
//! The library says which program is to be run, with which arguments and
//! in which way; running it is left to the caller.

use crate::process::{is_running, DAEMON_NAME, REMOTE_NAME};
use crate::transmission::{Transmission, TransmissionOpts};
use std::path::PathBuf;
use vstd::prelude::*;

verus! {

/// `PathBuf::clone`: the clone is the same path.
pub assume_specification[ <PathBuf as Clone>::clone ](path: &PathBuf) -> (copy: PathBuf)
    ensures
        copy == *path,
;

/// One argument of a command.
#[derive(Debug)]
pub enum Arg {
    /// An option or a text.
    Text(String),
    /// A path of the file system.
    Path(PathBuf),
}

/// The mathematical value of an [`Arg`].
pub enum ArgView {
    Text(Seq<char>),
    Path(PathBuf),
}

impl View for Arg {
    type V = ArgView;

    open spec fn view(&self) -> ArgView {
        match *self {
            Arg::Text(text) => ArgView::Text(text@),
            Arg::Path(path) => ArgView::Path(path),
        }
    }
}

/// How a command is run.
#[derive(Clone, Copy, Debug, PartialEq, Eq, Structural)]
pub enum Run {
    /// The program is started and left to run on its own.
    Detached,
    /// The program is run to its end and what it prints is discarded.
    Silent,
    /// The program is run to its end and what it prints is the result.
    Captured,
}

/// A command: a program, its arguments, and how it is run.
#[derive(Debug)]
pub struct Invocation {
    pub program: String,
    pub args: Vec<Arg>,
    pub run: Run,
}

/// The mathematical value of an [`Invocation`].
pub struct InvocationView {
    pub program: Seq<char>,
    pub args: Seq<ArgView>,
    pub run: Run,
}

impl View for Invocation {
    type V = InvocationView;

    open spec fn view(&self) -> InvocationView {
        InvocationView {
            program: self.program@,
            args: self.args@.map_values(|arg: Arg| arg@),
            run: self.run,
        }
    }
}

/// The arguments that name the download directory; none if no directory
/// is chosen.
pub open spec fn directory_args(dir: Option<PathBuf>) -> Seq<ArgView> {
    match dir {
        Some(path) => seq![ArgView::Text("--download-dir"@), ArgView::Path(path)],
        None => Seq::empty(),
    }
}

/// The command that starts the daemon.
pub open spec fn daemon_invocation(dir: Option<PathBuf>) -> InvocationView {
    InvocationView { program: DAEMON_NAME@, args: directory_args(dir), run: Run::Detached }
}

/// The command that asks the daemon for its report.
pub open spec fn list_invocation() -> InvocationView {
    InvocationView {
        program: REMOTE_NAME@,
        args: seq![ArgView::Text("--list"@)],
        run: Run::Captured,
    }
}

/// The command that has the daemon add, verify and start the transfer
/// that the file `torrent_file` describes.
pub open spec fn seed_invocation(torrent_file: PathBuf, dir: Option<PathBuf>) -> InvocationView {
    InvocationView {
        program: REMOTE_NAME@,
        args: seq![
            ArgView::Text("--torrent"@),
            ArgView::Path(torrent_file),
            ArgView::Text("--add"@),
            ArgView::Path(torrent_file),
            ArgView::Text("--verify"@),
            ArgView::Text("--start"@),
        ] + directory_args(dir),
        run: Run::Silent,
    }
}

/// The command that has the daemon add the transfer that the link
/// `magnet` names.
pub open spec fn download_invocation(magnet: Seq<char>, dir: Option<PathBuf>) -> InvocationView {
    InvocationView {
        program: REMOTE_NAME@,
        args: seq![ArgView::Text("--add"@), ArgView::Text(magnet)] + directory_args(dir),
        run: Run::Silent,
    }
}

/// Adds the arguments that name the download directory, if one is chosen.
fn push_directory(args: &mut Vec<Arg>, dir: &Option<PathBuf>)
    ensures
        final(args)@.map_values(|arg: Arg| arg@) == old(args)@.map_values(|arg: Arg| arg@)
            + directory_args(*dir),
{
    let ghost before = args@.map_values(|arg: Arg| arg@);
    match dir {
        Some(path) => {
            args.push(Arg::Text("--download-dir".to_owned()));
            args.push(Arg::Path(path.clone()));
            assert(args@.map_values(|arg: Arg| arg@) =~= before + directory_args(*dir));
        },
        None => {
            assert(args@.map_values(|arg: Arg| arg@) =~= before + directory_args(*dir));
        },
    }
}

impl Transmission {
    /// What starting the manager asks for when `running` says whether the
    /// daemon runs: a manager that knows no transfer yet, and the command
    /// that starts the daemon if it does not run. A daemon that runs is
    /// never started again.
    pub fn start_when(opts: TransmissionOpts, running: bool) -> (started: (
        Transmission,
        Option<Invocation>,
    ))
        ensures
            started.0@ == Seq::<crate::entry::EntryView>::empty(),
            started.0.directory() == opts.download_dir,
            started.1 is None <==> running,
            started.1 matches Some(command) ==> command@ == daemon_invocation(opts.download_dir),
    {
        let launch = if running {
            None
        } else {
            let mut args: Vec<Arg> = Vec::new();
            push_directory(&mut args, &opts.download_dir);
            let command = Invocation { program: DAEMON_NAME.to_owned(), args, run: Run::Detached };
            assert(command@.args =~= directory_args(opts.download_dir));
            Some(command)
        };
        (Transmission::empty(opts), launch)
    }

    /// Starts the manager: looks whether the daemon runs, and gives a
    /// manager that knows no transfer yet and, if the daemon does not run,
    /// the command that starts it.
    pub fn start(opts: TransmissionOpts) -> (started: (Transmission, Option<Invocation>))
        ensures
            started.0@ == Seq::<crate::entry::EntryView>::empty(),
            started.0.directory() == opts.download_dir,
            started.1 matches Some(command) ==> command@ == daemon_invocation(opts.download_dir),
    {
        Transmission::start_when(opts, is_running())
    }

    /// Ends the manager, and names the program whose process is to be
    /// terminated.
    pub fn stop(self) -> (name: &'static str)
        ensures
            name@ == DAEMON_NAME@,
    {
        DAEMON_NAME
    }

    /// The command that asks the daemon for its report.
    pub fn list_command() -> (command: Invocation)
        ensures
            command@ == list_invocation(),
    {
        let mut args: Vec<Arg> = Vec::new();
        args.push(Arg::Text("--list".to_owned()));
        let command = Invocation { program: REMOTE_NAME.to_owned(), args, run: Run::Captured };
        assert(command@.args =~= list_invocation().args);
        command
    }

    /// The command that has the daemon seed the transfer that the file
    /// `torrent_file` describes.
    pub fn seed_local_torrent(&self, torrent_file: &PathBuf) -> (command: Invocation)
        ensures
            command@ == seed_invocation(*torrent_file, self.directory()),
    {
        let mut args: Vec<Arg> = Vec::new();
        args.push(Arg::Text("--torrent".to_owned()));
        args.push(Arg::Path(torrent_file.clone()));
        args.push(Arg::Text("--add".to_owned()));
        args.push(Arg::Path(torrent_file.clone()));
        args.push(Arg::Text("--verify".to_owned()));
        args.push(Arg::Text("--start".to_owned()));
        let ghost fixed = args@.map_values(|arg: Arg| arg@);
        push_directory(&mut args, self.download_directory());
        let command = Invocation { program: REMOTE_NAME.to_owned(), args, run: Run::Silent };
        assert(fixed =~= seq![
            ArgView::Text("--torrent"@),
            ArgView::Path(*torrent_file),
            ArgView::Text("--add"@),
            ArgView::Path(*torrent_file),
            ArgView::Text("--verify"@),
            ArgView::Text("--start"@),
        ]);
        command
    }

    /// The command that has the daemon download the transfer that the
    /// link `magnet` names.
    pub fn download_torrent(&self, magnet: &str) -> (command: Invocation)
        ensures
            command@ == download_invocation(magnet@, self.directory()),
    {
        let mut args: Vec<Arg> = Vec::new();
        args.push(Arg::Text("--add".to_owned()));
        args.push(Arg::Text(magnet.to_owned()));
        let ghost fixed = args@.map_values(|arg: Arg| arg@);
        push_directory(&mut args, self.download_directory());
        let command = Invocation { program: REMOTE_NAME.to_owned(), args, run: Run::Silent };
        assert(fixed =~= seq![ArgView::Text("--add"@), ArgView::Text(magnet@)]);
        command
    }
}

} // verus!
