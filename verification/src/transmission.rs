//! The manager: the transfers it knows, and how a report changes them.

use crate::entry::{entry_of, Entry, EntryView};
use crate::error::Error;
use crate::process::is_running;
use crate::report::{
    decode_line, decode_report, is_summary, line_views, lines, parse_report, single_line_report,
    LineView,
};
use std::path::PathBuf;
use std::string::FromUtf8Error;
use vstd::prelude::*;
use vstd::string::StringExecFns;
use vstd::utf8::{
    decode_utf8, encode_utf8, encode_utf8_decode_utf8, encode_utf8_valid_utf8, valid_utf8,
};

verus! {

/// `std::path::PathBuf`, carried through as it is.
#[verifier::external_type_specification]
#[verifier::external_body]
pub struct ExPathBuf(std::path::PathBuf);

/// `std::string::FromUtf8Error`, of which nothing is read.
#[verifier::external_type_specification]
#[verifier::external_body]
pub struct ExFromUtf8Error(std::string::FromUtf8Error);

/// `String::from_utf8`: bytes that are the UTF-8 encoding of a text give
/// that text, and bytes that are no UTF-8 encoding are refused.
pub assume_specification[ String::from_utf8 ](vec: Vec<u8>) -> (res: Result<String, FromUtf8Error>)
    ensures
        match res {
            Ok(text) => encode_utf8(text@) == vec@,
            Err(_) => !valid_utf8(vec@),
        },
;

/// How the manager is set up.
#[derive(Debug)]
pub struct TransmissionOpts {
    /// The directory that the daemon downloads to, if one is chosen.
    pub download_dir: Option<PathBuf>,
}

impl Default for TransmissionOpts {
    fn default() -> (opts: TransmissionOpts)
        ensures
            opts.download_dir is None,
    {
        TransmissionOpts { download_dir: None }
    }
}

impl TransmissionOpts {
    /// Options that choose no download directory.
    pub fn new() -> (opts: TransmissionOpts)
        ensures
            opts.download_dir is None,
    {
        TransmissionOpts { download_dir: None }
    }

    /// The same options with `download_dir` as the download directory.
    pub fn download_dir(self, download_dir: PathBuf) -> (opts: TransmissionOpts)
        ensures
            opts.download_dir == Some(download_dir),
    {
        let mut opts = self;
        opts.download_dir = Some(download_dir);
        opts
    }
}

/// The values of a sequence of entries.
pub open spec fn entry_views(entries: Seq<Entry>) -> Seq<EntryView> {
    entries.map_values(|entry: Entry| entry@)
}

/// The index of the first entry with the identifier `id`, or
/// `entries.len()` if no entry has it.
pub open spec fn id_index(entries: Seq<EntryView>, id: u64) -> nat
    decreases entries.len(),
{
    if entries.len() > 0 && entries[0].id != id {
        1 + id_index(entries.drop_first(), id)
    } else {
        0
    }
}

/// The index of the first entry with the name `name`, or `entries.len()`
/// if no entry has it.
pub open spec fn name_index(entries: Seq<EntryView>, name: Seq<char>) -> nat
    decreases entries.len(),
{
    if entries.len() > 0 && entries[0].name != name {
        1 + name_index(entries.drop_first(), name)
    } else {
        0
    }
}

/// Whether no two entries have the same identifier.
pub open spec fn distinct_ids(entries: Seq<EntryView>) -> bool {
    forall|i: int, j: int|
        0 <= i < j < entries.len() ==> (#[trigger] entries[i]).id != (#[trigger] entries[j]).id
}

/// The entries after `entry` is recorded: it takes the place of the entry
/// with its identifier, or comes last if there is none.
pub open spec fn put(entries: Seq<EntryView>, entry: EntryView) -> Seq<EntryView> {
    let at = id_index(entries, entry.id);
    if at < entries.len() {
        entries.update(at as int, entry)
    } else {
        entries.push(entry)
    }
}

/// The entries after the lines of a report are recorded, one after the other.
pub open spec fn reconcile(entries: Seq<EntryView>, lines: Seq<LineView>) -> Seq<EntryView>
    decreases lines.len(),
{
    if lines.len() == 0 {
        entries
    } else {
        reconcile(put(entries, entry_of(lines[0])), lines.drop_first())
    }
}

pub proof fn lemma_id_index_bounds(entries: Seq<EntryView>, id: u64)
    ensures
        id_index(entries, id) <= entries.len(),
        forall|i: int| 0 <= i < id_index(entries, id) ==> (#[trigger] entries[i]).id != id,
        id_index(entries, id) < entries.len() ==> entries[id_index(entries, id) as int].id == id,
    decreases entries.len(),
{
    if entries.len() > 0 && entries[0].id != id {
        let rest = entries.drop_first();
        lemma_id_index_bounds(rest, id);
        assert forall|i: int| 0 <= i < id_index(entries, id) implies (#[trigger] entries[i]).id
            != id by {
            if i > 0 {
                assert(entries[i] == rest[i - 1]);
            }
        }
        if id_index(entries, id) < entries.len() {
            assert(entries[id_index(entries, id) as int] == rest[id_index(rest, id) as int]);
        }
    }
}

pub proof fn lemma_name_index_bounds(entries: Seq<EntryView>, name: Seq<char>)
    ensures
        name_index(entries, name) <= entries.len(),
        forall|i: int| 0 <= i < name_index(entries, name) ==> (#[trigger] entries[i]).name != name,
        name_index(entries, name) < entries.len() ==> entries[name_index(entries, name) as int].name
            == name,
    decreases entries.len(),
{
    if entries.len() > 0 && entries[0].name != name {
        let rest = entries.drop_first();
        lemma_name_index_bounds(rest, name);
        assert forall|i: int| 0 <= i < name_index(entries, name) implies (#[trigger] entries[i]).name
            != name by {
            if i > 0 {
                assert(entries[i] == rest[i - 1]);
            }
        }
        if name_index(entries, name) < entries.len() {
            assert(entries[name_index(entries, name) as int] == rest[name_index(rest, name) as int]);
        }
    }
}

/// Recording an entry keeps the identifiers distinct, keeps every entry
/// that was there in its place under its identifier, and leaves the
/// recorded entry in the list.
pub proof fn lemma_put(entries: Seq<EntryView>, entry: EntryView)
    requires
        distinct_ids(entries),
    ensures
        distinct_ids(put(entries, entry)),
        put(entries, entry).len() >= entries.len(),
        forall|i: int| 0 <= i < entries.len() ==> (#[trigger] put(entries, entry)[i]).id == entries[i].id,
        put(entries, entry)[id_index(entries, entry.id) as int] == entry,
{
    lemma_id_index_bounds(entries, entry.id);
}

/// Recording a report keeps the identifiers distinct and keeps every entry
/// that was there in its place under its identifier.
pub proof fn lemma_reconcile(entries: Seq<EntryView>, lines: Seq<LineView>)
    requires
        distinct_ids(entries),
    ensures
        distinct_ids(reconcile(entries, lines)),
        reconcile(entries, lines).len() >= entries.len(),
        forall|i: int|
            0 <= i < entries.len() ==> (#[trigger] reconcile(entries, lines)[i]).id == entries[i].id,
    decreases lines.len(),
{
    if lines.len() > 0 {
        let next = put(entries, entry_of(lines[0]));
        lemma_put(entries, entry_of(lines[0]));
        lemma_reconcile(next, lines.drop_first());
        assert forall|i: int| 0 <= i < entries.len() implies (#[trigger] reconcile(
            entries,
            lines,
        )[i]).id == entries[i].id by {
            assert(next[i].id == entries[i].id);
        }
    }
}

/// The identifiers that `entries` and `lines` hold between them.
pub open spec fn known_id(entries: Seq<EntryView>, lines: Seq<LineView>, id: u64) -> bool {
    ||| exists|j: int| 0 <= j < entries.len() && (#[trigger] entries[j]).id == id
    ||| exists|k: int| 0 <= k < lines.len() && (#[trigger] lines[k]).id == id
}

/// No identifier is made up: every entry after a report has the
/// identifier of an entry that was there before or of a line of the report.
pub proof fn identifiers_come_from_report(entries: Seq<EntryView>, lines: Seq<LineView>, i: int)
    requires
        0 <= i < reconcile(entries, lines).len(),
    ensures
        known_id(entries, lines, reconcile(entries, lines)[i].id),
    decreases lines.len(),
{
    let id = reconcile(entries, lines)[i].id;
    if lines.len() == 0 {
        assert(entries[i].id == id);
    } else {
        let first = entry_of(lines[0]);
        let next = put(entries, first);
        let rest = lines.drop_first();
        lemma_id_index_bounds(entries, first.id);
        identifiers_come_from_report(next, rest, i);
        if exists|j: int| 0 <= j < next.len() && (#[trigger] next[j]).id == id {
            let j = choose|j: int| 0 <= j < next.len() && (#[trigger] next[j]).id == id;
            if j < entries.len() && next[j] == entries[j] {
                assert(entries[j].id == id);
            } else {
                assert(next[j] == first);
                assert(lines[0].id == id);
            }
        } else {
            let k = choose|k: int| 0 <= k < rest.len() && (#[trigger] rest[k]).id == id;
            assert(lines[k + 1].id == id);
        }
    }
}

/// Recording a second entry under an identifier leaves nothing of the
/// first: the outcome is as if the first had never been recorded.
pub proof fn later_record_replaces_earlier(
    entries: Seq<EntryView>,
    first: EntryView,
    second: EntryView,
)
    requires
        first.id == second.id,
    ensures
        put(put(entries, first), second) == put(entries, second),
        id_index(put(entries, second), second.id) < put(entries, second).len(),
        put(entries, second)[id_index(put(entries, second), second.id) as int] == second,
{
    let id = first.id;
    let at = id_index(entries, id);
    let once = put(entries, first);
    lemma_id_index_bounds(entries, id);
    lemma_id_index_bounds(once, id);
    lemma_id_index_bounds(put(entries, second), id);
    assert(id_index(once, id) == at) by {
        assert(once[at as int].id == id);
        if id_index(once, id) < at {
            assert(once[id_index(once, id) as int].id == entries[id_index(once, id) as int].id);
        }
    }
    assert(id_index(put(entries, second), id) == at) by {
        let twice = put(entries, second);
        assert(twice[at as int].id == id);
        if id_index(twice, id) < at {
            assert(twice[id_index(twice, id) as int].id == entries[id_index(twice, id) as int].id);
        }
    }
    assert(put(once, second) =~= put(entries, second));
}

/// Two lines of one report with the same identifier, one after the
/// other, leave the entries as the second line alone would.
pub proof fn later_line_replaces_earlier(entries: Seq<EntryView>, first: LineView, second: LineView)
    requires
        first.id == second.id,
    ensures
        reconcile(entries, seq![first, second]) == reconcile(entries, seq![second]),
{
    later_record_replaces_earlier(entries, entry_of(first), entry_of(second));
    let both = seq![first, second];
    assert(both.drop_first() =~= seq![second]);
    assert(seq![second].drop_first() =~= Seq::<LineView>::empty());
    assert(reconcile(entries, both) == reconcile(put(entries, entry_of(first)), seq![second]));
    assert(reconcile(put(entries, entry_of(first)), seq![second]) == reconcile(
        put(put(entries, entry_of(first)), entry_of(second)),
        Seq::<LineView>::empty(),
    ));
    assert(reconcile(entries, seq![second]) == reconcile(
        put(entries, entry_of(second)),
        Seq::<LineView>::empty(),
    ));
}

/// A line that reports `100%` under an identifier that no entry has adds
/// a completed entry with the line's identifier, quantity, status and
/// name, after the entries that were there.
pub proof fn new_full_line_adds_completed_entry(entries: Seq<EntryView>, line: LineView)
    requires
        id_index(entries, line.id) == entries.len(),
        line.percentage == "100%"@,
    ensures
        reconcile(entries, seq![line]) == entries.push(
            EntryView {
                id: line.id,
                name: line.name,
                status: line.status,
                downloaded: line.downloaded,
                complete: true,
            },
        ),
{
    assert(seq![line].drop_first() =~= Seq::<LineView>::empty());
    assert(reconcile(entries, seq![line]) == reconcile(
        put(entries, entry_of(line)),
        Seq::<LineView>::empty(),
    ));
}

/// A manager that knows no transfer and is given a report that says what
/// one line says then knows exactly one entry, the line's, and the lookup
/// by the line's name finds it first.
pub proof fn one_line_gives_one_entry(line: LineView)
    ensures
        reconcile(Seq::empty(), seq![line]) == seq![entry_of(line)],
        name_index(seq![entry_of(line)], line.name) == 0,
        id_index(seq![entry_of(line)], line.id) == 0,
{
    let none = Seq::<EntryView>::empty();
    assert(seq![line].drop_first() =~= Seq::<LineView>::empty());
    assert(put(none, entry_of(line)) =~= seq![entry_of(line)]);
    assert(reconcile(none, seq![line]) == reconcile(
        put(none, entry_of(line)),
        Seq::<LineView>::empty(),
    ));
}

/// A report of a header and one line of the table, with nothing or a
/// summary line after it, gives a manager that knew no transfer exactly
/// one entry, which holds what the line says, and the lookup by the
/// line's name finds that entry.
pub proof fn single_line_report_gives_its_entry(text: Seq<char>, line: LineView)
    requires
        lines(text).len() >= 2,
        !is_summary(lines(text)[1]),
        decode_line(lines(text)[1]) == Ok::<LineView, Error>(line),
        lines(text).len() == 2 || is_summary(lines(text)[2]),
    ensures
        decode_report(text) == Ok::<Seq<LineView>, Error>(seq![line]),
        reconcile(Seq::empty(), seq![line]) == seq![entry_of(line)],
        name_index(seq![entry_of(line)], line.name) == 0,
        entry_of(line).id == line.id && entry_of(line).name == line.name && entry_of(line).status
            == line.status && entry_of(line).downloaded == line.downloaded,
{
    single_line_report(text, line);
    one_line_gives_one_entry(line);
}

/// The index of the first of `entries` with the identifier `id`, or the
/// number of entries if none has it.
fn position_by_id(entries: &Vec<Entry>, id: u64) -> (at: usize)
    ensures
        at <= entries@.len(),
        at == id_index(entry_views(entries@), id),
{
    let ghost views = entry_views(entries@);
    let mut at: usize = 0;
    proof {
        assert(views.skip(0) =~= views);
    }
    while at < entries.len() && *entries[at].id() != id
        invariant
            at <= entries@.len(),
            views == entry_views(entries@),
            id_index(views, id) == at + id_index(views.skip(at as int), id),
        decreases entries@.len() - at,
    {
        assert(views.skip(at as int).drop_first() =~= views.skip(at + 1));
        at += 1;
    }
    at
}

/// Records `entry` among `entries`.
fn record(entries: &mut Vec<Entry>, entry: Entry)
    ensures
        entry_views(final(entries)@) == put(entry_views(old(entries)@), entry@),
{
    let at = position_by_id(entries, *entry.id());
    let ghost before = entry_views(entries@);
    if at < entries.len() {
        entries.set(at, entry);
        assert(entry_views(entries@) =~= before.update(at as int, entry@));
    } else {
        entries.push(entry);
        assert(entry_views(entries@) =~= before.push(entry@));
    }
}

/// The manager of the daemon's transfers.
///
/// It holds an entry for each transfer that a report has told it of, at
/// most one for an identifier, in the order in which it came to know them.
#[derive(Debug)]
pub struct Transmission {
    entries: Vec<Entry>,
    download_dir: Option<PathBuf>,
}

impl View for Transmission {
    type V = Seq<EntryView>;

    closed spec fn view(&self) -> Seq<EntryView> {
        entry_views(self.entries@)
    }
}

impl Transmission {
    #[verifier::type_invariant]
    spec fn well_formed(self) -> bool {
        distinct_ids(entry_views(self.entries@))
    }

    /// The download directory that the manager was set up with.
    pub closed spec fn directory(&self) -> Option<PathBuf> {
        self.download_dir
    }

    /// A manager that knows no transfer yet.
    pub fn empty(opts: TransmissionOpts) -> (manager: Transmission)
        ensures
            manager@ == Seq::<EntryView>::empty(),
            manager.directory() == opts.download_dir,
    {
        let manager = Transmission { entries: Vec::new(), download_dir: opts.download_dir };
        assert(manager@ =~= Seq::<EntryView>::empty());
        manager
    }

    /// A manager for the daemon if `running` says that it runs, else none.
    pub fn attach(opts: TransmissionOpts, running: bool) -> (manager: Option<Transmission>)
        ensures
            manager is Some <==> running,
            manager matches Some(m) ==> m@ == Seq::<EntryView>::empty() && m.directory()
                == opts.download_dir,
    {
        if running {
            Some(Transmission::empty(opts))
        } else {
            None
        }
    }

    /// A manager for the daemon if a process of it is running, else none.
    /// Nothing is started.
    pub fn from_running(opts: TransmissionOpts) -> (manager: Option<Transmission>)
        ensures
            manager matches Some(m) ==> m@ == Seq::<EntryView>::empty() && m.directory()
                == opts.download_dir,
    {
        Transmission::attach(opts, is_running())
    }

    /// The entries, in the order in which the manager came to know them.
    pub fn entries(&self) -> (entries: &Vec<Entry>)
        ensures
            entry_views(entries@) == self@,
            distinct_ids(self@),
    {
        proof {
            use_type_invariant(self);
        }
        &self.entries
    }

    /// The download directory, if one was chosen.
    pub fn download_directory(&self) -> (dir: &Option<PathBuf>)
        ensures
            *dir == self.directory(),
    {
        &self.download_dir
    }

    /// The entry with the identifier `id`, if there is one.
    pub fn get_by_id(&self, id: u64) -> (found: Option<&Entry>)
        ensures
            match found {
                Some(entry) => entry@.id == id && id_index(self@, id) < self@.len() && entry@
                    == self@[id_index(self@, id) as int],
                None => forall|i: int| 0 <= i < self@.len() ==> (#[trigger] self@[i]).id != id,
            },
    {
        proof {
            lemma_id_index_bounds(self@, id);
        }
        let at = position_by_id(&self.entries, id);
        if at < self.entries.len() {
            Some(&self.entries[at])
        } else {
            None
        }
    }

    /// The first entry with the name `name`, if there is one.
    pub fn get_by_name(&self, name: &str) -> (found: Option<&Entry>)
        ensures
            match found {
                Some(entry) => {
                    let at = name_index(self@, name@) as int;
                    &&& at < self@.len()
                    &&& entry@ == self@[at]
                    &&& entry@.name == name@
                    &&& forall|i: int| 0 <= i < at ==> (#[trigger] self@[i]).name != name@
                },
                None => name_index(self@, name@) == self@.len() && forall|i: int|
                    0 <= i < self@.len() ==> (#[trigger] self@[i]).name != name@,
            },
    {
        let wanted = String::from_str(name);
        let ghost views = self@;
        let mut at: usize = 0;
        proof {
            assert(views.skip(0) =~= views);
        }
        while at < self.entries.len()
            invariant
                at <= self.entries@.len(),
                views == entry_views(self.entries@),
                wanted@ == name@,
                name_index(views, name@) == at + name_index(views.skip(at as int), name@),
            decreases self.entries@.len() - at,
        {
            let entry = &self.entries[at];
            if String::from_str(entry.name()) == wanted {
                proof {
                    lemma_name_index_bounds(views, name@);
                }
                return Some(entry);
            }
            assert(views.skip(at as int).drop_first() =~= views.skip(at + 1));
            at += 1;
        }
        proof {
            lemma_name_index_bounds(views, name@);
        }
        None
    }

    /// Brings the entries up to date with what the daemon's list command
    /// printed: the bytes are read as UTF-8 text, and the text as a report.
    /// Bytes that are no text, or no report, are rejected and change nothing.
    pub fn refresh(&mut self, output: Vec<u8>) -> (res: Result<(), Error>)
        ensures
            final(self).directory() == old(self).directory(),
            distinct_ids(final(self)@),
            match res {
                Ok(()) => valid_utf8(output@) && (decode_report(decode_utf8(output@)) matches Ok(
                    lines,
                ) && final(self)@ == reconcile(old(self)@, lines)),
                Err(e) => final(self)@ == old(self)@ && if valid_utf8(output@) {
                    decode_report(decode_utf8(output@)) == Err::<Seq<LineView>, Error>(e)
                } else {
                    e == Error::InvalidUtf8
                },
            },
    {
        let ghost bytes = output@;
        match String::from_utf8(output) {
            Ok(text) => {
                proof {
                    encode_utf8_valid_utf8(text@);
                    encode_utf8_decode_utf8(text@);
                }
                self.update_entries(text.as_str())
            },
            Err(_) => {
                proof {
                    use_type_invariant(&*self);
                }
                Err(Error::InvalidUtf8)
            },
        }
    }

    /// Brings the entries up to date with a report of the daemon.
    ///
    /// Each line of the report's table is recorded in turn: its record
    /// takes the place of the entry with its identifier, or is added if
    /// there is none. No entry is ever removed. A report that cannot be
    /// decoded is rejected as a whole and changes nothing.
    pub fn update_entries(&mut self, s: &str) -> (res: Result<(), Error>)
        ensures
            final(self).directory() == old(self).directory(),
            distinct_ids(final(self)@),
            match res {
                Ok(()) => decode_report(s@) matches Ok(lines) && final(self)@ == reconcile(
                    old(self)@,
                    lines,
                ),
                Err(e) => decode_report(s@) == Err::<Seq<LineView>, Error>(e) && final(self)@ == old(
                    self,
                )@,
            },
    {
        proof {
            use_type_invariant(&*self);
        }
        let table = match parse_report(s) {
            Ok(table) => table,
            Err(e) => {
                return Err(e);
            },
        };
        let ghost lines = line_views(table@);
        let ghost start = self@;
        let mut entries: Vec<Entry> = Vec::new();
        std::mem::swap(&mut entries, &mut self.entries);
        let mut i: usize = 0;
        proof {
            assert(lines.skip(0) =~= lines);
        }
        while i < table.len()
            invariant
                i <= table@.len(),
                lines == line_views(table@),
                distinct_ids(entry_views(entries@)),
                reconcile(entry_views(entries@), lines.skip(i as int)) == reconcile(start, lines),
            decreases table@.len() - i,
        {
            let entry = Entry::from_line(&table[i]);
            proof {
                assert(lines.skip(i as int)[0] == table@[i as int]@);
                assert(lines.skip(i as int).drop_first() =~= lines.skip(i + 1));
                lemma_put(entry_views(entries@), entry@);
            }
            record(&mut entries, entry);
            i += 1;
        }
        self.entries = entries;
        Ok(())
    }
}

} // verus!
