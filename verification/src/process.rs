//! Looking for the daemon among the processes of the machine.

use sysinfo::System;
use sysinfo::SystemExt;
use vstd::prelude::*;

verus! {

/// The name of the daemon's program, by which its process is found.
pub const DAEMON_NAME: &'static str = "transmission-daemon";

/// The name of the program that talks to the daemon.
pub const REMOTE_NAME: &'static str = "transmission-remote";

/// `sysinfo::System`, of which nothing is read but through the three
/// functions below.
#[verifier::external_type_specification]
#[verifier::external_body]
pub struct ExSystem(sysinfo::System);

/// `sysinfo::SystemExt::new`: a view of the system with no process loaded
/// yet. Nothing is claimed of it.
#[verifier::external_body]
fn new_system() -> (system: System) {
    System::new()
}

/// `sysinfo::SystemExt::refresh_all`: loads what the system holds now,
/// its processes among the rest. Nothing is claimed of what it finds.
/// It panics on a machine whose clock stands before the year 1970.
#[verifier::external_body]
fn refresh_all(system: &mut System) {
    system.refresh_all()
}

/// `sysinfo::SystemExt::get_process_by_name`: the number of loaded
/// processes whose name contains `name`. Nothing is claimed of the number.
#[verifier::external_body]
fn count_processes(system: &System, name: &str) -> (count: usize) {
    system.get_process_by_name(name).len()
}

/// Whether a process of the daemon is running now. The answer is the
/// machine's: two calls may differ.
pub fn is_running() -> (running: bool) {
    let mut system = new_system();
    refresh_all(&mut system);
    runs_by_count(count_processes(&system, DAEMON_NAME))
}

/// Whether the daemon runs when `count` processes carry its name: one
/// such process is enough, and more than one are taken as one daemon.
pub fn runs_by_count(count: usize) -> (running: bool)
    ensures
        running == (count > 0),
{
    count > 0
}

} // verus!
