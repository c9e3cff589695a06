use distpac::bytes::Bytes;
use distpac::command::{Arg, Invocation, Run};
use distpac::download::{Download, Phase, Step, POLL_INTERVAL_MS};
use distpac::entry::{Entry, Status};
use distpac::error::Error;
use distpac::process::{is_running, runs_by_count, DAEMON_NAME, REMOTE_NAME};
use distpac::report::parse_line;
use distpac::transmission::{Transmission, TransmissionOpts};
use std::path::PathBuf;

type BoxResult<T> = Result<T, Box<dyn std::error::Error>>;

const ENTRY_LIST: &str = "ID     Done       Have  ETA           Up    Down  Ratio  Status       Name
   1   100%   786.8 MB  Done         0.0     0.0    0.0  Seeding      archlinux-2021.04.01-x86_64.iso
Sum:          786.8 MB               0.0     0.0
";

fn report(lines: &[&str]) -> String {
    let mut text = String::from("ID  Done  Have  ETA  Up  Down  Ratio  Status  Name\n");
    for line in lines {
        text.push_str(line);
        text.push('\n');
    }
    text.push_str("Sum:  0 B  0.0  0.0\n");
    text
}

fn arguments(command: &Invocation) -> Vec<String> {
    command
        .args
        .iter()
        .map(|arg| match arg {
            Arg::Text(text) => text.clone(),
            Arg::Path(path) => format!("<{}>", path.display()),
        })
        .collect()
}

#[test]
fn parse_entry_list() -> BoxResult<()> {
    let entry_list = ENTRY_LIST;

    let mut transmission = Transmission::empty(TransmissionOpts::new());
    transmission.update_entries(entry_list).map_err(|e| e.message())?;

    let name = "archlinux-2021.04.01-x86_64.iso";
    let entry = Entry::completed(
        1,
        Bytes::from_whole((786.8 * 1_000_000.0) as u64),
        Status::Seeding,
        name.to_owned(),
    );
    assert_eq!(*transmission.entries(), [entry.clone()]);
    assert_eq!(transmission.get_by_name(name), Some(&entry));

    assert_eq!(transmission.stop(), "transmission-daemon");

    Ok(())
}

#[test]
fn one_line_gives_one_entry_with_its_fields() {
    let mut transmission = Transmission::empty(TransmissionOpts::new());
    let text = report(&["  7   45%   1.5 GB  2 hrs  0.0  900.0  0.0  Downloading  debian 12.iso"]);
    assert_eq!(transmission.update_entries(&text), Ok(()));

    assert_eq!(transmission.entries().len(), 1);
    let entry = transmission.get_by_name("debian 12.iso").unwrap();
    assert_eq!(*entry.id(), 7);
    assert_eq!(entry.name(), "debian 12.iso");
    assert_eq!(*entry.status(), Status::Downloading);
    assert_eq!(*entry.downloaded(), Bytes::from_whole(1_500_000_000));
    assert!(!entry.is_finished());
    assert_eq!(transmission.get_by_id(7), Some(entry));
    assert_eq!(transmission.get_by_name("debian"), None);
    assert_eq!(transmission.get_by_id(8), None);
}

#[test]
fn a_rejected_report_changes_nothing() {
    let mut transmission = Transmission::empty(TransmissionOpts::new());
    let first = report(&["1  10%  1 kB  1 min  0.0  1.0  0.0  Downloading  a"]);
    assert_eq!(transmission.update_entries(&first), Ok(()));
    let before = transmission.entries().clone();

    // The second line has eight fields: the first line is not recorded either.
    let bad = report(&[
        "1  100%  9 kB  Done  0.0  0.0  0.0  Seeding  a",
        "2  10%  1 kB  1 min  0.0  1.0  Downloading  b",
    ]);
    assert_eq!(transmission.update_entries(&bad), Err(Error::InvalidEntryFormat));
    assert_eq!(*transmission.entries(), before);

    let bad_quantity = report(&[
        "3  100%  9 kB  Done  0.0  0.0  0.0  Seeding  c",
        "1  10%  much  1 min  0.0  1.0  0.0  Downloading  a",
    ]);
    assert_eq!(transmission.update_entries(&bad_quantity), Err(Error::InvalidByteFormat));
    assert_eq!(*transmission.entries(), before);

    let ten_fields = report(&["4  1%  1 B  x  y  z  0.0  0.0  Seeding  d"]);
    assert_eq!(transmission.update_entries(&ten_fields), Err(Error::InvalidEntryFormat));
    assert_eq!(*transmission.entries(), before);
}

#[test]
fn a_known_identifier_is_replaced_wholly() {
    let mut transmission = Transmission::empty(TransmissionOpts::new());
    let first = report(&[
        "1  60%  600 kB  1 min  0.0  1.0  0.0  Downloading  first name",
        "2  100%  5 MB  Done  0.0  0.0  0.0  Seeding  other",
    ]);
    assert_eq!(transmission.update_entries(&first), Ok(()));

    // The second report knows less of transfer 1: nothing of the first stays.
    let second = report(&["1  n/a  None  Unknown  0.0  0.0  None  Stopped  second name"]);
    assert_eq!(transmission.update_entries(&second), Ok(()));

    let entries = transmission.entries();
    assert_eq!(entries.len(), 2);
    assert_eq!(
        entries[0],
        Entry::partial(1, Bytes::zero(), Status::Stopped, "second name".to_owned())
    );
    assert_eq!(
        entries[1],
        Entry::completed(2, Bytes::from_whole(5_000_000), Status::Seeding, "other".to_owned())
    );
    assert_eq!(transmission.get_by_name("first name"), None);

    // Twice in one report: the later line stands.
    let twice = report(&[
        "1  10%  1 kB  1 min  0.0  1.0  0.0  Downloading  early",
        "1  100%  2 kB  Done  0.0  0.0  0.0  Seeding  late",
    ]);
    assert_eq!(transmission.update_entries(&twice), Ok(()));
    assert_eq!(transmission.entries().len(), 2);
    assert_eq!(
        transmission.entries()[0],
        Entry::completed(1, Bytes::from_whole(2_000), Status::Seeding, "late".to_owned())
    );
}

#[test]
fn a_new_identifier_at_full_percentage_is_a_completed_entry() {
    let mut transmission = Transmission::empty(TransmissionOpts::new());
    let text = report(&["  9   100%   2.5 kB  Done  0.0  0.0  1.0  Stopped  done.txt"]);
    assert_eq!(transmission.update_entries(&text), Ok(()));
    assert_eq!(
        *transmission.entries(),
        [Entry::completed(9, Bytes::from_whole(2_500), Status::Stopped, "done.txt".to_owned())]
    );
    // All the data is there, but the daemon does not report it as seeding.
    assert!(!transmission.entries()[0].is_finished());

    let line = parse_line("9  100%  2.5 kB  Done  0.0  0.0  1.0  Seeding  done.txt").unwrap();
    assert_eq!(
        Entry::from_line(&line),
        Entry::completed(9, Bytes::from_whole(2_500), Status::Seeding, "done.txt".to_owned())
    );
    assert!(Entry::from_line(&line).is_finished());
    let line = parse_line("9  99%  2.5 kB  Done  0.0  0.0  1.0  Seeding  done.txt").unwrap();
    assert_eq!(
        Entry::from_line(&line),
        Entry::partial(9, Bytes::from_whole(2_500), Status::Seeding, "done.txt".to_owned())
    );
    assert!(!Entry::from_line(&line).is_finished());
}

#[test]
fn entries_stay_when_a_report_leaves_them_out() {
    let mut transmission = Transmission::empty(TransmissionOpts::new());
    let first = report(&[
        "1  10%  1 kB  1 min  0.0  1.0  0.0  Downloading  a",
        "2  20%  2 kB  1 min  0.0  1.0  0.0  Downloading  b",
    ]);
    assert_eq!(transmission.update_entries(&first), Ok(()));
    let second = report(&[
        "3  30%  3 kB  1 min  0.0  1.0  0.0  Downloading  c",
        "2  40%  4 kB  1 min  0.0  1.0  0.0  Downloading  b",
    ]);
    assert_eq!(transmission.update_entries(&second), Ok(()));
    let ids: Vec<u64> = transmission.entries().iter().map(|e| *e.id()).collect();
    assert_eq!(ids, [1, 2, 3]);
    assert_eq!(*transmission.entries()[1].downloaded(), Bytes::from_whole(4_000));

    assert_eq!(transmission.update_entries(""), Ok(()));
    assert_eq!(transmission.entries().len(), 3);
}

#[test]
fn the_first_entry_with_a_name_is_found() {
    let mut transmission = Transmission::empty(TransmissionOpts::new());
    let text = report(&[
        "1  10%  1 kB  1 min  0.0  1.0  0.0  Downloading  same",
        "2  20%  2 kB  1 min  0.0  1.0  0.0  Downloading  same",
    ]);
    assert_eq!(transmission.update_entries(&text), Ok(()));
    assert_eq!(transmission.get_by_name("same").map(|e| *e.id()), Some(1));
    assert_eq!(transmission.get_by_name("Same"), None);
    assert_eq!(transmission.get_by_name(""), None);
}

#[test]
fn refresh_reads_the_bytes_as_text() {
    let mut transmission = Transmission::empty(TransmissionOpts::new());
    let text = report(&["1  100%  1 kB  Done  0.0  0.0  0.0  Seeding  grüße.iso"]);
    assert_eq!(transmission.refresh(text.clone().into_bytes()), Ok(()));
    assert_eq!(transmission.get_by_name("grüße.iso").map(|e| *e.id()), Some(1));

    let before = transmission.entries().clone();
    let mut bytes = report(&["2  100%  1 kB  Done  0.0  0.0  0.0  Seeding  b"]).into_bytes();
    bytes.push(0xff);
    assert_eq!(transmission.refresh(bytes), Err(Error::InvalidUtf8));
    assert_eq!(*transmission.entries(), before);

    let bad = report(&["2  100%  1 kB  Done"]).into_bytes();
    assert_eq!(transmission.refresh(bad), Err(Error::InvalidEntryFormat));
    assert_eq!(*transmission.entries(), before);
}

#[test]
fn options_carry_the_download_directory() {
    assert_eq!(TransmissionOpts::new().download_dir, None);
    assert_eq!(TransmissionOpts::default().download_dir, None);
    let opts = TransmissionOpts::new().download_dir(PathBuf::from("/srv/data"));
    assert_eq!(opts.download_dir, Some(PathBuf::from("/srv/data")));
    let transmission = Transmission::empty(opts);
    assert_eq!(*transmission.download_directory(), Some(PathBuf::from("/srv/data")));
    assert!(transmission.entries().is_empty());
}

#[test]
fn a_manager_is_attached_only_to_a_running_daemon() {
    assert!(Transmission::attach(TransmissionOpts::new(), false).is_none());
    let attached = Transmission::attach(
        TransmissionOpts::new().download_dir(PathBuf::from("data")),
        true,
    )
    .unwrap();
    assert!(attached.entries().is_empty());
    assert_eq!(*attached.download_directory(), Some(PathBuf::from("data")));

    let running = is_running();
    let found = Transmission::from_running(TransmissionOpts::new());
    if running == is_running() {
        assert_eq!(found.is_some(), running);
    }
}

#[test]
fn one_process_of_the_daemon_is_enough() {
    assert!(!runs_by_count(0));
    assert!(runs_by_count(1));
    assert!(runs_by_count(2));
    assert!(runs_by_count(usize::MAX));
}

#[test]
fn a_daemon_that_runs_is_not_started_again() {
    let (manager, launch) = Transmission::start_when(TransmissionOpts::new(), true);
    assert!(launch.is_none());
    assert!(manager.entries().is_empty());

    let (manager, launch) = Transmission::start_when(TransmissionOpts::new(), false);
    let launch = launch.unwrap();
    assert_eq!(launch.program, "transmission-daemon");
    assert_eq!(launch.program, DAEMON_NAME);
    assert_eq!(arguments(&launch), Vec::<String>::new());
    assert_eq!(launch.run, Run::Detached);
    assert!(manager.entries().is_empty());

    let opts = TransmissionOpts::new().download_dir(PathBuf::from("/srv/data"));
    let (manager, launch) = Transmission::start_when(opts, false);
    let launch = launch.unwrap();
    assert_eq!(arguments(&launch), ["--download-dir", "</srv/data>"]);
    assert_eq!(*manager.download_directory(), Some(PathBuf::from("/srv/data")));

    let running = is_running();
    let (_, launch) = Transmission::start(TransmissionOpts::new());
    if running == is_running() {
        assert_eq!(launch.is_none(), running);
    }
}

#[test]
fn commands_for_the_daemon() {
    let list = Transmission::list_command();
    assert_eq!(list.program, "transmission-remote");
    assert_eq!(list.program, REMOTE_NAME);
    assert_eq!(arguments(&list), ["--list"]);
    assert_eq!(list.run, Run::Captured);

    let plain = Transmission::empty(TransmissionOpts::new());
    let seed = plain.seed_local_torrent(&PathBuf::from("a.torrent"));
    assert_eq!(seed.program, "transmission-remote");
    assert_eq!(
        arguments(&seed),
        ["--torrent", "<a.torrent>", "--add", "<a.torrent>", "--verify", "--start"]
    );
    assert_eq!(seed.run, Run::Silent);
    let download = plain.download_torrent("magnet:?xt=urn:btih:abc");
    assert_eq!(download.program, "transmission-remote");
    assert_eq!(arguments(&download), ["--add", "magnet:?xt=urn:btih:abc"]);
    assert_eq!(download.run, Run::Silent);

    let opts = TransmissionOpts::new().download_dir(PathBuf::from("/srv/data"));
    let with_dir = Transmission::empty(opts);
    assert_eq!(
        arguments(&with_dir.seed_local_torrent(&PathBuf::from("a.torrent"))),
        [
            "--torrent",
            "<a.torrent>",
            "--add",
            "<a.torrent>",
            "--verify",
            "--start",
            "--download-dir",
            "</srv/data>"
        ]
    );
    assert_eq!(
        arguments(&with_dir.download_torrent("magnet:?xt=urn:btih:abc")),
        ["--add", "magnet:?xt=urn:btih:abc", "--download-dir", "</srv/data>"]
    );
}

#[test]
fn a_download_is_watched_until_it_is_finished() {
    assert_eq!(POLL_INTERVAL_MS, 200);
    let mut transmission = Transmission::empty(TransmissionOpts::new());
    let mut download = Download::new("a.iso".to_owned());
    assert_eq!(download.current_phase(), Phase::Searching);

    // Nothing is known of the transfer yet.
    assert_eq!(download.observe(&transmission), Step::Wait);
    assert_eq!(download.current_phase(), Phase::Searching);
    let other = report(&["1  50%  1 kB  1 min  0.0  1.0  0.0  Downloading  b.iso"]);
    transmission.update_entries(&other).unwrap();
    assert_eq!(download.observe(&transmission), Step::Wait);
    assert_eq!(download.current_phase(), Phase::Searching);

    // It is known, but has no data.
    let queued = report(&["2  n/a  None  Unknown  0.0  0.0  None  Queued  a.iso"]);
    transmission.update_entries(&queued).unwrap();
    assert_eq!(download.observe(&transmission), Step::Wait);
    assert_eq!(download.current_phase(), Phase::Queued);

    // The first data: progress is measured anew.
    let started = report(&["2  1%  12.5 kB  1 min  0.0  1.0  0.0  Downloading  a.iso"]);
    transmission.update_entries(&started).unwrap();
    assert_eq!(
        download.observe(&transmission),
        Step::Progress { restart: true, position: 12_500 }
    );
    assert_eq!(download.current_phase(), Phase::Active);

    let more = report(&["2  75%  0.95 MB  1 min  0.0  1.0  0.0  Downloading  a.iso"]);
    transmission.update_entries(&more).unwrap();
    assert_eq!(
        download.observe(&transmission),
        Step::Progress { restart: false, position: 950_000 }
    );

    // A reading of nothing does not take the transfer back.
    transmission.update_entries(&queued).unwrap();
    assert_eq!(download.observe(&transmission), Step::Wait);
    assert_eq!(download.current_phase(), Phase::Active);

    // All the data, but still being verified.
    let verifying = report(&["2  100%  1.27 MB  Done  0.0  0.0  0.0  Verifying  a.iso"]);
    transmission.update_entries(&verifying).unwrap();
    assert_eq!(
        download.observe(&transmission),
        Step::Progress { restart: false, position: 1_270_000 }
    );

    let done = report(&["2  100%  1.27 MB  Done  0.0  0.0  0.0  Seeding  a.iso"]);
    transmission.update_entries(&done).unwrap();
    assert_eq!(download.observe(&transmission), Step::Finish);
    assert_eq!(download.current_phase(), Phase::Done);
}

#[test]
fn a_download_that_is_complete_at_once_is_finished_at_once() {
    let mut transmission = Transmission::empty(TransmissionOpts::new());
    transmission.update_entries(ENTRY_LIST).unwrap();
    let mut download = Download::new("archlinux-2021.04.01-x86_64.iso".to_owned());
    assert_eq!(download.observe(&transmission), Step::Finish);
    assert_eq!(download.current_phase(), Phase::Done);
}
