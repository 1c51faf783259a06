//! Keeping up with the announcements of other peers, and announcing one's own files.

use vstd::prelude::*;

use crate::file_map::{FileMap, FileMapView};
use crate::text::same_text;

verus! {

/// Where the map of one's own files is kept.
pub const LOCAL_MAP_FILE: &'static str = "local_file_map.json";

/// Where the entries of other peers are kept.
pub const GLOBAL_MAP_FILE: &'static str = "global_file_map.json";

/// The topic on which all peers announce their files.
pub const METADATA_TOPIC: &'static str = "artichoke_file_metadata/rumqtt";

/// The broker that all peers connect to.
pub const BROKER_HOST: &'static str = "test.mosquitto.org";

/// The port of the broker.
pub const BROKER_PORT: u16 = 1883;

/// How often the connection to the broker is kept alive, in seconds.
pub const KEEP_ALIVE_SECS: u64 = 30;

/// How many requests to the broker may wait.
pub const REQUEST_QUEUE_LEN: usize = 10;

/// How often a peer looks for changes of its own files, in seconds.
pub const PUBLISH_INTERVAL_SECS: u64 = 5;

/// How long the answers of other peers are awaited, in seconds.
pub const REPLY_WAIT_SECS: u64 = 3;

/// The files that a peer announces.
#[derive(Debug)]
pub struct FileEntry {
    pub peer_id: String,
    pub files: FileMap,
}

/// A `FileEntry` as mathematical values.
pub struct FileEntryView {
    pub peer_id: Seq<char>,
    pub files: FileMapView,
}

impl View for FileEntry {
    type V = FileEntryView;

    open spec fn view(&self) -> FileEntryView {
        FileEntryView { peer_id: self.peer_id@, files: self.files@ }
    }
}

impl Clone for FileEntry {
    fn clone(&self) -> (copy: Self)
        ensures
            copy@ == self@,
    {
        FileEntry { peer_id: self.peer_id.clone(), files: self.files.clone() }
    }
}

/// Entries as mathematical values.
pub open spec fn entry_views(entries: Seq<FileEntry>) -> Seq<FileEntryView> {
    entries.map_values(|entry: FileEntry| entry@)
}

/// What a peer announces of its own files.
pub fn announcement(peer_id: &str, files: FileMap) -> (entry: FileEntry)
    ensures
        entry@ == (FileEntryView { peer_id: peer_id@, files: files@ }),
{
    FileEntry { peer_id: peer_id.to_string(), files }
}

/// The lower case hexadecimal digits.
pub open spec fn hex_digit(c: char) -> bool {
    '0' <= c <= '9' || 'a' <= c <= 'f'
}

/// Whether `text` has the form of a random (version 4) UUID.
pub open spec fn is_random_uuid(text: Seq<char>) -> bool {
    &&& text.len() == 36
    &&& forall|i: int|
        0 <= i < 36 ==> if i == 8 || i == 13 || i == 18 || i == 23 {
            #[trigger] text[i] == '-'
        } else {
            hex_digit(text[i])
        }
    &&& text[14] == '4'
    &&& text[19] == '8' || text[19] == '9' || text[19] == 'a' || text[19] == 'b'
}

/// `uuid::Uuid::new_v4` makes a random UUID, which is written with lower case digits in groups of
/// 8, 4, 4, 4 and 12. Which one is up to the random numbers of the operating system.
#[verifier::external_body]
fn random_uuid() -> (text: String)
    ensures
        is_random_uuid(text@),
{
    uuid::Uuid::new_v4().to_string()
}

/// How a peer is known: to other peers, and to the broker.
#[derive(Debug)]
pub struct Identity {
    pub peer_id: String,
    pub client_id: String,
}

/// The identity of the peer `peer_id`.
pub fn identity_of(peer_id: String) -> (identity: Identity)
    ensures
        identity.peer_id@ == peer_id@,
        identity.client_id@ == "peer-"@ + peer_id@,
{
    let mut client_id: String = "peer-".to_string();
    client_id.append(peer_id.as_str());
    Identity { peer_id, client_id }
}

/// A fresh identity.
pub fn new_identity() -> (identity: Identity)
    ensures
        is_random_uuid(identity.peer_id@),
        identity.client_id@ == "peer-"@ + identity.peer_id@,
{
    identity_of(random_uuid())
}

/// `entries` with `entry` in place of what its peer announced before, or at the end where that
/// peer is new.
pub open spec fn upsert(entries: Seq<FileEntryView>, entry: FileEntryView) -> Seq<FileEntryView>
    decreases entries.len(),
{
    if entries.len() == 0 {
        seq![entry]
    } else if entries[0].peer_id == entry.peer_id {
        seq![entry] + entries.drop_first()
    } else {
        seq![entries[0]] + upsert(entries.drop_first(), entry)
    }
}

/// What the peer `peer_id` announced.
pub open spec fn entry_of(entries: Seq<FileEntryView>, peer_id: Seq<char>) -> Option<FileEntryView>
    decreases entries.len(),
{
    if entries.len() == 0 {
        None
    } else if entries[0].peer_id == peer_id {
        Some(entries[0])
    } else {
        entry_of(entries.drop_first(), peer_id)
    }
}

/// Whether no peer comes twice.
pub open spec fn distinct_peers(entries: Seq<FileEntryView>) -> bool {
    forall|i: int, j: int|
        0 <= i < j < entries.len() ==> (#[trigger] entries[i]).peer_id != (
        #[trigger] entries[j]).peer_id
}

/// The entries of all peers but `peer_id`.
pub open spec fn entries_without(
    entries: Seq<FileEntryView>,
    peer_id: Seq<char>,
) -> Seq<FileEntryView> {
    entries.filter(|entry: FileEntryView| entry.peer_id != peer_id)
}

proof fn lemma_upsert_at(entries: Seq<FileEntryView>, entry: FileEntryView, at: int)
    requires
        0 <= at <= entries.len(),
        forall|i: int| 0 <= i < at ==> (#[trigger] entries[i]).peer_id != entry.peer_id,
        at < entries.len() ==> entries[at].peer_id == entry.peer_id,
    ensures
        upsert(entries, entry) == if at < entries.len() {
            entries.update(at, entry)
        } else {
            entries.push(entry)
        },
    decreases entries.len(),
{
    if entries.len() == 0 {
        assert(entries.push(entry) =~= seq![entry]);
    } else if at == 0 {
        assert(entries.update(0, entry) =~= seq![entry] + entries.drop_first());
    } else {
        let rest = entries.drop_first();
        assert forall|i: int| 0 <= i < at - 1 implies (#[trigger] rest[i]).peer_id
            != entry.peer_id by {
            assert(rest[i] == entries[i + 1]);
        }
        lemma_upsert_at(rest, entry, at - 1);
        if at < entries.len() {
            assert(entries.update(at, entry) =~= seq![entries[0]] + rest.update(at - 1, entry));
        } else {
            assert(entries.push(entry) =~= seq![entries[0]] + rest.push(entry));
        }
    }
}

/// Storing an announcement leaves every peer at most once.
pub proof fn lemma_upsert_distinct(entries: Seq<FileEntryView>, entry: FileEntryView)
    requires
        distinct_peers(entries),
    ensures
        distinct_peers(upsert(entries, entry)),
{
    if exists|i: int| 0 <= i < entries.len() && (#[trigger] entries[i]).peer_id == entry.peer_id {
        let at = choose|i: int|
            0 <= i < entries.len() && (#[trigger] entries[i]).peer_id == entry.peer_id;
        assert forall|i: int| 0 <= i < at implies (#[trigger] entries[i]).peer_id
            != entry.peer_id by {
            assert(entries[i].peer_id != entries[at].peer_id);
        }
        lemma_upsert_at(entries, entry, at);
        let after = entries.update(at, entry);
        assert forall|i: int, j: int| 0 <= i < j < after.len() implies (
        #[trigger] after[i]).peer_id != (#[trigger] after[j]).peer_id by {
            assert(entries[i].peer_id != entries[j].peer_id);
        }
    } else {
        lemma_upsert_at(entries, entry, entries.len() as int);
    }
}

/// The last announcement of every other peer, in the order in which the peers were first heard.
#[derive(Debug)]
pub struct PeerRegistry {
    entries: Vec<FileEntry>,
}

impl View for PeerRegistry {
    type V = Seq<FileEntryView>;

    closed spec fn view(&self) -> Seq<FileEntryView> {
        entry_views(self.entries@)
    }
}

impl PeerRegistry {
    #[verifier::type_invariant]
    spec fn peers_are_distinct(&self) -> bool {
        distinct_peers(self@)
    }

    /// A registry in which no peer has been heard.
    pub fn new() -> (registry: Self)
        ensures
            registry@ == Seq::<FileEntryView>::empty(),
    {
        let registry: PeerRegistry = PeerRegistry { entries: Vec::new() };
        assert(registry@ =~= Seq::<FileEntryView>::empty());
        registry
    }

    /// Stores an announcement in place of what its peer announced before. No peer is ever stored
    /// twice.
    pub fn store(&mut self, entry: FileEntry)
        ensures
            final(self)@ == upsert(old(self)@, entry@),
            distinct_peers(final(self)@),
    {
        proof {
            use_type_invariant(&*self);
        }
        let ghost before = self@;
        let mut entries: Vec<FileEntry> = Vec::new();
        assert(entry_views(entries@) =~= Seq::<FileEntryView>::empty());
        std::mem::swap(&mut entries, &mut self.entries);
        let mut at: usize = 0;
        while at < entries.len() && !same_text(
            entries[at].peer_id.as_str(),
            entry.peer_id.as_str(),
        )
            invariant
                at <= entries@.len(),
                before == entry_views(entries@),
                forall|i: int| 0 <= i < at ==> (#[trigger] before[i]).peer_id != entry@.peer_id,
            decreases entries@.len() - at,
        {
            assert(before[at as int] == entries@[at as int]@);
            at = at + 1;
        }
        proof {
            if at < entries.len() {
                assert(before[at as int] == entries@[at as int]@);
            }
            lemma_upsert_at(before, entry@, at as int);
            lemma_upsert_distinct(before, entry@);
        }
        let ghost view = entry@;
        if at < entries.len() {
            entries.set(at, entry);
            assert(entry_views(entries@) =~= before.update(at as int, view));
        } else {
            entries.push(entry);
            assert(entry_views(entries@) =~= before.push(view));
        }
        self.entries = entries;
    }

    /// Copies the entries of all peers but `peer_id`.
    pub fn entries_except(&self, peer_id: &str) -> (entries: Vec<FileEntry>)
        ensures
            entry_views(entries@) == entries_without(self@, peer_id@),
    {
        let mut entries: Vec<FileEntry> = Vec::new();
        let ghost keep = |entry: FileEntryView| entry.peer_id != peer_id@;
        let mut i: usize = 0;
        proof {
            assert(self@.take(0) =~= Seq::<FileEntryView>::empty());
            assert(entry_views(entries@) =~= Seq::<FileEntryView>::empty());
            reveal(Seq::filter);
        }
        while i < self.entries.len()
            invariant
                i <= self.entries@.len(),
                self@ == entry_views(self.entries@),
                keep == (|entry: FileEntryView| entry.peer_id != peer_id@),
                entry_views(entries@) == self@.take(i as int).filter(keep),
            decreases self.entries@.len() - i,
        {
            proof {
                reveal(Seq::filter);
                assert(self@.take(i + 1).drop_last() =~= self@.take(i as int));
                assert(self@[i as int] == self.entries@[i as int]@);
            }
            if !same_text(self.entries[i].peer_id.as_str(), peer_id) {
                let ghost before = entry_views(entries@);
                let copy: FileEntry = self.entries[i].clone();
                let ghost view = copy@;
                entries.push(copy);
                assert(entry_views(entries@) =~= before.push(view));
            }
            i = i + 1;
        }
        assert(self@.take(self@.len() as int) =~= self@);
        entries
    }
}

/// Storing an announcement moves no peer: each stays where it was, with what it announced unless
/// the announcement is its own, and only a peer that is new comes, at the end.
pub proof fn law_store_keeps_order(entries: Seq<FileEntryView>, entry: FileEntryView)
    ensures
        ({
            let after = upsert(entries, entry);
            &&& forall|i: int|
                0 <= i < entries.len() ==> (#[trigger] after[i]).peer_id == entries[i].peer_id && (
                entries[i].peer_id != entry.peer_id ==> after[i] == entries[i])
            &&& (exists|i: int|
                0 <= i < entries.len() && (#[trigger] entries[i]).peer_id == entry.peer_id)
                ==> after.len() == entries.len()
            &&& !(exists|i: int|
                0 <= i < entries.len() && (#[trigger] entries[i]).peer_id == entry.peer_id)
                ==> after == entries.push(entry)
            &&& after.contains(entry)
        }),
{
    let at = first_of(entries, entry.peer_id, 0);
    lemma_first_of(entries, entry.peer_id, 0);
    lemma_upsert_at(entries, entry, at);
    let after = upsert(entries, entry);
    assert(after[at] == entry);
}

spec fn first_of(entries: Seq<FileEntryView>, peer_id: Seq<char>, from: int) -> int
    decreases entries.len() - from,
{
    if from >= entries.len() || entries[from].peer_id == peer_id {
        from
    } else {
        first_of(entries, peer_id, from + 1)
    }
}

proof fn lemma_first_of(entries: Seq<FileEntryView>, peer_id: Seq<char>, from: int)
    requires
        0 <= from <= entries.len(),
    ensures
        from <= first_of(entries, peer_id, from) <= entries.len(),
        forall|i: int|
            from <= i < first_of(entries, peer_id, from) ==> (#[trigger] entries[i]).peer_id
                != peer_id,
        first_of(entries, peer_id, from) < entries.len() ==> entries[first_of(
            entries,
            peer_id,
            from,
        )].peer_id == peer_id,
    decreases entries.len() - from,
{
    if from < entries.len() && entries[from].peer_id != peer_id {
        lemma_first_of(entries, peer_id, from + 1);
    }
}

/// Leaving out a peer leaves out its entries and no others, and keeps the order of the rest.
pub proof fn law_leaving_out_a_peer(
    front: Seq<FileEntryView>,
    entry: FileEntryView,
    back: Seq<FileEntryView>,
    peer_id: Seq<char>,
)
    ensures
        entries_without(Seq::empty(), peer_id) == Seq::<FileEntryView>::empty(),
        entries_without(seq![entry], peer_id) == if entry.peer_id == peer_id {
            Seq::empty()
        } else {
            seq![entry]
        },
        entries_without(front + back, peer_id) == entries_without(front, peer_id)
            + entries_without(back, peer_id),
{
    reveal(Seq::filter);
    assert(seq![entry].drop_last() =~= Seq::<FileEntryView>::empty());
    let keep = |e: FileEntryView| e.peer_id != peer_id;
    assert(Seq::<FileEntryView>::empty().filter(keep) =~= Seq::<FileEntryView>::empty());
    assert(seq![entry].drop_last().filter(keep) =~= Seq::<FileEntryView>::empty());
    assert(Seq::<FileEntryView>::empty().push(entry) =~= seq![entry]);
    Seq::filter_distributes_over_add(front, back, keep);
}

/// Entries stand for what their fields hold, in full, and as many as there are.
pub proof fn law_entries_are_their_fields(entries: Seq<FileEntry>)
    ensures
        entry_views(entries).len() == entries.len(),
        forall|i: int|
            0 <= i < entries.len() ==> (#[trigger] entry_views(entries)[i]).peer_id
                == entries[i].peer_id@ && entry_views(entries)[i].files == entries[i].files@,
{
}

} // verus!
