//! The scan of a directory, as a machine that asks for renaming and measuring.

use vstd::prelude::*;
use vstd::utf8::encode_utf8;

use crate::file_map::{FileInfo, FileMap, FileMapView};
use crate::file_watcher::{
    announced_address, can_announce, describe_file, described_file, file_extension, generate_id, is_file_id,
    law_served_name_keeps_the_rest, optional_text, served_name,
};
use crate::sealed_url::{decrypted_url, encrypted_url, MAX_MESSAGE_LEN};
use crate::text::{contains_char, replace_char};

verus! {

/// How far the scan of a directory has come.
#[derive(Debug)]
pub enum ScanPhase {
    /// The next entry of the directory is awaited.
    Listing,
    /// A file is being renamed to `name`.
    Renaming { name: String },
    /// The size of the file `name` is being asked for.
    Measuring { name: String },
}

/// A `ScanPhase` as mathematical values.
pub enum ScanPhaseView {
    Listing,
    Renaming { name: Seq<char> },
    Measuring { name: Seq<char> },
}

impl View for ScanPhase {
    type V = ScanPhaseView;

    open spec fn view(&self) -> ScanPhaseView {
        match self {
            ScanPhase::Listing => ScanPhaseView::Listing,
            ScanPhase::Renaming { name } => ScanPhaseView::Renaming { name: name@ },
            ScanPhase::Measuring { name } => ScanPhaseView::Measuring { name: name@ },
        }
    }
}

/// What happened during a scan.
#[derive(Debug)]
pub enum ScanEvent {
    /// The directory holds an entry.
    Found { name: String, is_file: bool },
    /// The renaming that was asked for is over.
    Renamed { done: bool },
    /// The size that was asked for, if it could be had.
    Measured { size: Option<u64> },
}

/// A `ScanEvent` as mathematical values.
pub enum ScanEventView {
    Found { name: Seq<char>, is_file: bool },
    Renamed { done: bool },
    Measured { size: Option<u64> },
}

impl View for ScanEvent {
    type V = ScanEventView;

    open spec fn view(&self) -> ScanEventView {
        match self {
            ScanEvent::Found { name, is_file } => ScanEventView::Found {
                name: name@,
                is_file: *is_file,
            },
            ScanEvent::Renamed { done } => ScanEventView::Renamed { done: *done },
            ScanEvent::Measured { size } => ScanEventView::Measured { size: *size },
        }
    }
}

/// What a scan asks for next.
#[derive(Debug)]
pub enum ScanAction {
    /// Go on to the next entry of the directory.
    Next,
    /// Rename the file that was found to `to`.
    Rename { to: String },
    /// Ask for the size of the file `name`.
    Measure { name: String },
}

/// A `ScanAction` as mathematical values.
pub enum ScanActionView {
    Next,
    Rename { to: Seq<char> },
    Measure { name: Seq<char> },
}

impl View for ScanAction {
    type V = ScanActionView;

    open spec fn view(&self) -> ScanActionView {
        match self {
            ScanAction::Next => ScanActionView::Next,
            ScanAction::Rename { to } => ScanActionView::Rename { to: to@ },
            ScanAction::Measure { name } => ScanActionView::Measure { name: name@ },
        }
    }
}

/// The scan of a directory.
#[derive(Debug)]
pub struct DirectoryScan {
    phase: ScanPhase,
    files: FileMap,
}

/// A `DirectoryScan` as mathematical values.
pub struct ScanView {
    pub phase: ScanPhaseView,
    pub files: FileMapView,
}

impl View for DirectoryScan {
    type V = ScanView;

    closed spec fn view(&self) -> ScanView {
        ScanView { phase: self.phase@, files: self.files@ }
    }
}

/// One step of a scan: a file with a space in its name is renamed first, then its size is asked
/// for, then it is put into the map under `id`. What cannot be renamed or measured is left out,
/// and so is what is no file.
pub open spec fn scan_step(
    scan: ScanView,
    event: ScanEventView,
    id: Seq<char>,
    address: Option<Seq<char>>,
) -> (ScanView, ScanActionView) {
    match (scan.phase, event) {
        (ScanPhaseView::Listing, ScanEventView::Found { name, is_file }) => {
            let served = served_name(name);
            if !is_file {
                (scan, ScanActionView::Next)
            } else if name.contains(' ') {
                (
                    ScanView { phase: ScanPhaseView::Renaming { name: served }, files: scan.files },
                    ScanActionView::Rename { to: served },
                )
            } else {
                (
                    ScanView {
                        phase: ScanPhaseView::Measuring { name: served },
                        files: scan.files,
                    },
                    ScanActionView::Measure { name: served },
                )
            }
        },
        (ScanPhaseView::Renaming { name }, ScanEventView::Renamed { done: true }) => (
            ScanView { phase: ScanPhaseView::Measuring { name }, files: scan.files },
            ScanActionView::Measure { name },
        ),
        (ScanPhaseView::Renaming { name }, ScanEventView::Renamed { done: false }) => (
            ScanView { phase: ScanPhaseView::Listing, files: scan.files },
            ScanActionView::Next,
        ),
        (ScanPhaseView::Measuring { name }, ScanEventView::Measured { size: Some(size) }) => (
            ScanView {
                phase: ScanPhaseView::Listing,
                files: scan.files.insert(id, described_file(id, name, size, address)),
            },
            ScanActionView::Next,
        ),
        (ScanPhaseView::Measuring { name }, ScanEventView::Measured { size: None }) => (
            ScanView { phase: ScanPhaseView::Listing, files: scan.files },
            ScanActionView::Next,
        ),
        _ => (scan, ScanActionView::Next),
    }
}

/// Whether a step puts a file into the map.
pub open spec fn adds_file(scan: ScanView, event: ScanEventView) -> bool {
    scan.phase is Measuring && event matches ScanEventView::Measured { size: Some(_) }
}

impl DirectoryScan {
    /// A scan that has found nothing yet.
    pub fn new() -> (scan: Self)
        ensures
            scan@ == (ScanView { phase: ScanPhaseView::Listing, files: FileMapView::empty() }),
    {
        DirectoryScan { phase: ScanPhase::Listing, files: FileMap::new() }
    }

    /// Takes one step, with `id` for a file that is put into the map.
    pub fn step_with_id(
        &mut self,
        event: ScanEvent,
        id: String,
        address: Option<&str>,
    ) -> (action: ScanAction)
        requires
            can_announce(optional_text(address)),
        ensures
            (final(self)@, action@) == scan_step(old(self)@, event@, id@, optional_text(address)),
            adds_file(old(self)@, event@) && encode_utf8(
                announced_address(optional_text(address)),
            ).len() <= MAX_MESSAGE_LEN ==> decrypted_url(final(self)@.files[id@].url)
                == announced_address(optional_text(address)),
    {
        let mut phase: ScanPhase = ScanPhase::Listing;
        std::mem::swap(&mut phase, &mut self.phase);
        match event {
            ScanEvent::Found { name, is_file } => match phase {
                ScanPhase::Listing => {
                    if !is_file {
                        return ScanAction::Next;
                    }
                    let served: String = replace_char(name.as_str(), ' ', '_');
                    if contains_char(name.as_str(), ' ') {
                        self.phase = ScanPhase::Renaming { name: served.clone() };
                        ScanAction::Rename { to: served }
                    } else {
                        self.phase = ScanPhase::Measuring { name: served.clone() };
                        ScanAction::Measure { name: served }
                    }
                },
                other => {
                    self.phase = other;
                    ScanAction::Next
                },
            },
            ScanEvent::Renamed { done } => match phase {
                ScanPhase::Renaming { name } => {
                    if done {
                        self.phase = ScanPhase::Measuring { name: name.clone() };
                        ScanAction::Measure { name }
                    } else {
                        ScanAction::Next
                    }
                },
                other => {
                    self.phase = other;
                    ScanAction::Next
                },
            },
            ScanEvent::Measured { size } => match phase {
                ScanPhase::Measuring { name } => {
                    if let Some(size) = size {
                        let info: FileInfo = describe_file(id.clone(), name, size, address);
                        self.files.insert(id, info);
                    }
                    ScanAction::Next
                },
                other => {
                    self.phase = other;
                    ScanAction::Next
                },
            },
        }
    }

    /// Takes one step, with a fresh identifier for a file that is put into the map.
    pub fn step(&mut self, event: ScanEvent, address: Option<&str>) -> (action: ScanAction)
        requires
            can_announce(optional_text(address)),
        ensures
            exists|id: Seq<char>| #[trigger]
                is_file_id(id) && (final(self)@, action@) == scan_step(
                    old(self)@,
                    event@,
                    id,
                    optional_text(address),
                ) && (adds_file(old(self)@, event@) && encode_utf8(
                    announced_address(optional_text(address)),
                ).len() <= MAX_MESSAGE_LEN ==> decrypted_url(final(self)@.files[id].url)
                    == announced_address(optional_text(address))),
    {
        let id: String = generate_id();
        self.step_with_id(event, id, address)
    }

    /// The files that the scan found.
    pub fn finish(self) -> (files: FileMap)
        ensures
            files@ == self@.files,
    {
        self.files
    }
}

/// What a directory entry turned out to be.
pub struct EntryOutcome {
    pub name: Seq<char>,
    pub is_file: bool,
    /// Whether it could be renamed, where that was asked for.
    pub renames: bool,
    /// Its size, where that could be had.
    pub size: Option<u64>,
}

/// Whether an entry ends up in the map: it is a file, it could be renamed if its name held a
/// space, and it could be measured.
pub open spec fn is_shared(entry: EntryOutcome) -> bool {
    entry.is_file && (entry.name.contains(' ') ==> entry.renames) && entry.size is Some
}

/// The events that a scan sees of an entry.
pub open spec fn entry_events(entry: EntryOutcome) -> Seq<ScanEventView> {
    let found = ScanEventView::Found { name: entry.name, is_file: entry.is_file };
    let renamed = ScanEventView::Renamed { done: entry.renames };
    let measured = ScanEventView::Measured { size: entry.size };
    if !entry.is_file {
        seq![found]
    } else if !entry.name.contains(' ') {
        seq![found, measured]
    } else if !entry.renames {
        seq![found, renamed]
    } else {
        seq![found, renamed, measured]
    }
}

/// A scan after `events`, with `id` for a file that is put into the map.
pub open spec fn scan_run(
    scan: ScanView,
    events: Seq<ScanEventView>,
    id: Seq<char>,
    address: Option<Seq<char>>,
) -> ScanView
    decreases events.len(),
{
    if events.len() == 0 {
        scan
    } else {
        scan_step(scan_run(scan, events.drop_last(), id, address), events.last(), id, address).0
    }
}

/// What a scan makes of an entry: one more file in the map where the entry is shared, and nothing
/// otherwise; either way it is ready for the next entry.
pub proof fn law_scan_entry(
    scan: ScanView,
    entry: EntryOutcome,
    id: Seq<char>,
    address: Option<Seq<char>>,
)
    requires
        scan.phase is Listing,
    ensures
        scan_run(scan, entry_events(entry), id, address) == (ScanView {
            phase: ScanPhaseView::Listing,
            files: if is_shared(entry) {
                scan.files.insert(
                    id,
                    described_file(id, served_name(entry.name), entry.size->0, address),
                )
            } else {
                scan.files
            },
        }),
{
    let events = entry_events(entry);
    reveal_with_fuel(scan_run, 4);
    let first = events.take(1);
    assert(first.drop_last() =~= Seq::<ScanEventView>::empty());
    if events.len() == 1 {
        assert(events =~= first);
    } else if events.len() == 2 {
        assert(events.drop_last() =~= first);
    } else {
        let second = events.take(2);
        assert(second.drop_last() =~= first);
        assert(events.drop_last() =~= second);
    }
}

/// A scan of a whole directory, with an identifier for each entry.
pub open spec fn scan_directory_run(
    entries: Seq<EntryOutcome>,
    ids: Seq<Seq<char>>,
    address: Option<Seq<char>>,
) -> ScanView
    decreases entries.len(),
{
    if entries.len() == 0 {
        ScanView { phase: ScanPhaseView::Listing, files: FileMapView::empty() }
    } else {
        scan_run(
            scan_directory_run(entries.drop_last(), ids, address),
            entry_events(entries.last()),
            ids[entries.len() - 1],
            address,
        )
    }
}

/// A scan finds exactly the entries that are shared, each under its own identifier, as long as no
/// identifier comes twice.
pub proof fn law_scan_directory(
    entries: Seq<EntryOutcome>,
    ids: Seq<Seq<char>>,
    address: Option<Seq<char>>,
)
    requires
        ids.len() >= entries.len(),
        ids.no_duplicates(),
    ensures
        scan_directory_run(entries, ids, address).phase is Listing,
        forall|i: int|
            #![trigger entries[i]]
            0 <= i < entries.len() && is_shared(entries[i]) ==> {
                let files = scan_directory_run(entries, ids, address).files;
                &&& files.contains_key(ids[i])
                &&& files[ids[i]] == described_file(
                    ids[i],
                    served_name(entries[i].name),
                    entries[i].size->0,
                    address,
                )
            },
        forall|id: Seq<char>| #[trigger]
            scan_directory_run(entries, ids, address).files.contains_key(id) ==> exists|i: int|
                0 <= i < entries.len() && #[trigger] ids[i] == id && is_shared(entries[i]),
    decreases entries.len(),
{
    if entries.len() > 0 {
        let before = entries.drop_last();
        let last = entries.len() - 1;
        law_scan_directory(before, ids, address);
        let scan = scan_directory_run(before, ids, address);
        law_scan_entry(scan, entries.last(), ids[last], address);
        let files = scan_directory_run(entries, ids, address).files;
        assert forall|i: int|
            #![trigger entries[i]]
            0 <= i < entries.len() && is_shared(entries[i]) implies files.contains_key(ids[i])
            && files[ids[i]] == described_file(
            ids[i],
            served_name(entries[i].name),
            entries[i].size->0,
            address,
        ) by {
            if i < last {
                assert(before[i] == entries[i]);
                assert(ids[i] != ids[last]);
            }
        }
        assert forall|id: Seq<char>| #[trigger] files.contains_key(id) implies exists|i: int|
            0 <= i < entries.len() && #[trigger] ids[i] == id && is_shared(entries[i]) by {
            if scan.files.contains_key(id) {
                let i = choose|i: int|
                    0 <= i < before.len() && #[trigger] ids[i] == id && is_shared(before[i]);
                assert(before[i] == entries[i]);
            } else {
                assert(ids[last] == id);
            }
        }
    }
}

/// What a scan leaves of an entry: a file that could be renamed, or had no need to be, has its
/// served name from then on.
pub open spec fn left_behind(entry: EntryOutcome) -> EntryOutcome {
    if entry.is_file && (entry.name.contains(' ') ==> entry.renames) {
        EntryOutcome { name: served_name(entry.name), ..entry }
    } else {
        entry
    }
}

/// What a scan leaves of a directory in which no file is renamed to the name of another.
pub open spec fn directory_left_behind(entries: Seq<EntryOutcome>) -> Seq<EntryOutcome> {
    entries.map_values(|entry: EntryOutcome| left_behind(entry))
}

/// A second scan of what a scan left behind finds the same files, and renames none of those that
/// are shared: with the same identifiers and the same address the two maps are equal.
pub proof fn law_second_scan_finds_the_same(
    entries: Seq<EntryOutcome>,
    ids: Seq<Seq<char>>,
    address: Option<Seq<char>>,
)
    ensures
        scan_directory_run(directory_left_behind(entries), ids, address) == scan_directory_run(
            entries,
            ids,
            address,
        ),
        forall|i: int|
            0 <= i < entries.len() && is_shared(#[trigger] entries[i]) ==> is_shared(
                left_behind(entries[i]),
            ) && !left_behind(entries[i]).name.contains(' '),
    decreases entries.len(),
{
    let after = directory_left_behind(entries);
    if entries.len() > 0 {
        let before = entries.drop_last();
        law_second_scan_finds_the_same(before, ids, address);
        assert(after.drop_last() =~= directory_left_behind(before));
        let scan = scan_directory_run(before, ids, address);
        lemma_scan_is_listing(before, ids, address);
        let entry = entries.last();
        assert(after.last() == left_behind(entry));
        law_served_name(entry.name);
        law_scan_entry(scan, entry, ids[entries.len() - 1], address);
        law_scan_entry(scan, left_behind(entry), ids[entries.len() - 1], address);
    }
    assert forall|i: int| 0 <= i < entries.len() && is_shared(#[trigger] entries[i]) implies (
    is_shared(left_behind(entries[i])) && !left_behind(entries[i]).name.contains(' ')) by {
        law_served_name(entries[i].name);
    }
}

proof fn lemma_scan_is_listing(
    entries: Seq<EntryOutcome>,
    ids: Seq<Seq<char>>,
    address: Option<Seq<char>>,
)
    ensures
        scan_directory_run(entries, ids, address).phase is Listing,
    decreases entries.len(),
{
    if entries.len() > 0 {
        let before = entries.drop_last();
        lemma_scan_is_listing(before, ids, address);
        law_scan_entry(
            scan_directory_run(before, ids, address),
            entries.last(),
            ids[entries.len() - 1],
            address,
        );
    }
}

/// Whether everything in a map is described as a file of the peer at `address`: under its own
/// identifier, with a name that holds no space.
pub open spec fn tidy(files: FileMapView, address: Option<Seq<char>>) -> bool {
    forall|id: Seq<char>| #[trigger]
        files.contains_key(id) ==> {
            &&& !files[id].name.contains(' ')
            &&& files[id] == described_file(id, files[id].name, files[id].size, address)
        }
}

/// Whether a scan has only put tidy entries into the map and is about to put in another.
pub open spec fn tidy_scan(scan: ScanView, address: Option<Seq<char>>) -> bool {
    &&& tidy(scan.files, address)
    &&& scan.phase matches ScanPhaseView::Renaming { name } ==> !name.contains(' ')
    &&& scan.phase matches ScanPhaseView::Measuring { name } ==> !name.contains(' ')
}

/// A served name holds no space, so it is served as it is from then on.
pub proof fn law_served_name(name: Seq<char>)
    ensures
        !served_name(name).contains(' '),
        served_name(served_name(name)) == served_name(name),
        !name.contains(' ') ==> served_name(name) == name,
{
    let served = served_name(name);
    if served.contains(' ') {
        let i = served.index_of(' ');
        assert(served[i] == ' ');
    }
    assert(served_name(served) =~= served);
    if !name.contains(' ') {
        assert forall|i: int| 0 <= i < name.len() implies #[trigger] served[i] == name[i] by {
            assert(name.contains(name[i]));
        }
        assert(served =~= name);
    }
}

/// Every step keeps a scan tidy, whatever happened and whatever the identifier.
pub proof fn law_scan_stays_tidy(
    scan: ScanView,
    event: ScanEventView,
    id: Seq<char>,
    address: Option<Seq<char>>,
)
    requires
        tidy_scan(scan, address),
    ensures
        tidy_scan(scan_step(scan, event, id, address).0, address),
{
    if let ScanEventView::Found { name, is_file } = event {
        law_served_name(name);
    }
}

/// Whether `to` is `name` with an underscore for every space.
pub open spec fn differs_in_spaces(name: Seq<char>, to: Seq<char>) -> bool {
    &&& to.len() == name.len()
    &&& forall|i: int|
        0 <= i < name.len() ==> #[trigger] to[i] == if name[i] == ' ' {
            '_'
        } else {
            name[i]
        }
}

/// A scan asks for what it needs of a file, whatever it found before: a new name where there is a
/// space in the old one, and then its size, by the name that the file has by then. It asks for
/// nothing of other entries.
pub proof fn law_scan_asks(
    scan: ScanView,
    name: Seq<char>,
    id: Seq<char>,
    address: Option<Seq<char>>,
)
    requires
        scan.phase is Listing,
    ensures
        ({
            let found = scan_step(
                scan,
                ScanEventView::Found { name, is_file: true },
                id,
                address,
            );
            &&& !name.contains(' ') ==> found.1 == (ScanActionView::Measure { name })
            &&& name.contains(' ') ==> (found.1 matches ScanActionView::Rename { to }
                && differs_in_spaces(name, to)
                && scan_step(found.0, ScanEventView::Renamed { done: true }, id, address).1 == (
            ScanActionView::Measure { name: to })
                && scan_step(found.0, ScanEventView::Renamed { done: false }, id, address).1
                is Next)
        }),
        scan_step(scan, ScanEventView::Found { name, is_file: false }, id, address) == (
            scan,
            ScanActionView::Next,
        ),
{
    law_served_name_keeps_the_rest(name);
    law_served_name(name);
}

/// Whether an event answers what a scan last asked for.
pub open spec fn is_in_turn(scan: ScanView, event: ScanEventView) -> bool {
    match scan.phase {
        ScanPhaseView::Listing => event is Found,
        ScanPhaseView::Renaming { .. } => event is Renamed,
        ScanPhaseView::Measuring { .. } => event is Measured,
    }
}

/// A step touches the map only under its own identifier, and only where a file was measured; an
/// event out of turn changes nothing.
pub proof fn law_scan_keeps_other_files(
    scan: ScanView,
    event: ScanEventView,
    id: Seq<char>,
    address: Option<Seq<char>>,
)
    ensures
        ({
            let after = scan_step(scan, event, id, address).0;
            &&& after.files.remove(id) == scan.files.remove(id)
            &&& !(event is Measured) ==> after.files == scan.files
            &&& event == (ScanEventView::Measured { size: None }) ==> after.files == scan.files
            &&& !is_in_turn(scan, event) ==> after == scan
        }),
{
    let after = scan_step(scan, event, id, address).0;
    assert(after.files.remove(id) =~= scan.files.remove(id));
}

/// A file that was measured is in the map, under its identifier, with the name by which it was
/// asked for and its size, and with the address of the peer.
pub proof fn law_measured_file_is_shared(
    scan: ScanView,
    size: u64,
    id: Seq<char>,
    address: Option<Seq<char>>,
)
    requires
        scan.phase is Measuring,
    ensures
        ({
            let after = scan_step(
                scan,
                ScanEventView::Measured { size: Some(size) },
                id,
                address,
            ).0;
            &&& after.phase is Listing
            &&& after.files.contains_key(id)
            &&& after.files[id].id == id
            &&& after.files[id].name == scan.phase->Measuring_name
            &&& after.files[id].size == size
            &&& after.files[id].file_type == file_extension(scan.phase->Measuring_name)
            &&& after.files[id].url == encrypted_url(announced_address(address))
        }),
{
}

/// Events and actions stand for all that they carry.
pub proof fn law_scan_values_are_their_fields(
    name: String,
    is_file: bool,
    done: bool,
    size: Option<u64>,
)
    ensures
        (ScanEvent::Found { name, is_file })@ == (ScanEventView::Found { name: name@, is_file }),
        (ScanEvent::Renamed { done })@ == (ScanEventView::Renamed { done }),
        (ScanEvent::Measured { size })@ == (ScanEventView::Measured { size }),
        ScanAction::Next@ is Next,
        (ScanAction::Rename { to: name })@ == (ScanActionView::Rename { to: name@ }),
        (ScanAction::Measure { name })@ == (ScanActionView::Measure { name: name@ }),
{
}

} // verus!
