//! The background task that listens to other peers and announces changes, as a machine.

use vstd::prelude::*;

use crate::mqtt_sync::{
    distinct_peers, entries_without, entry_of, lemma_upsert_distinct, upsert, FileEntry, FileEntryView, PeerRegistry,
};
use crate::text::{same_bytes, same_text};

verus! {

/// Bytes that may be absent, as mathematical values.
pub open spec fn optional_bytes(bytes: Option<Vec<u8>>) -> Option<Seq<u8>> {
    match bytes {
        Some(bytes) => Some(bytes@),
        None => None,
    }
}

/// What the background task knows.
#[derive(Debug)]
pub struct SyncState {
    own_id: String,
    last_payload: Option<Vec<u8>>,
    pending: Option<Vec<u8>>,
}

/// A `SyncState` as mathematical values.
pub struct SyncView {
    /// The peer's own identifier.
    pub own_id: Seq<char>,
    /// The file map that was announced last.
    pub last_payload: Option<Seq<u8>>,
    /// The file map whose announcement is under way.
    pub pending: Option<Seq<u8>>,
}

impl View for SyncState {
    type V = SyncView;

    closed spec fn view(&self) -> SyncView {
        SyncView {
            own_id: self.own_id@,
            last_payload: optional_bytes(self.last_payload),
            pending: optional_bytes(self.pending),
        }
    }
}

/// What happened to the background task.
#[derive(Debug)]
pub enum SyncEvent {
    /// A peer announced its files.
    Announced { entry: FileEntry },
    /// Something else came from the broker, or nothing could be had from it.
    OtherTraffic,
    /// It is time to look for changes; the file map, if it could be read.
    Tick { file_map: Option<Vec<u8>> },
    /// The announcement that was asked for is over.
    Published { done: bool },
}

/// A `SyncEvent` as mathematical values.
pub enum SyncEventView {
    Announced { entry: FileEntryView },
    OtherTraffic,
    Tick { file_map: Option<Seq<u8>> },
    Published { done: bool },
}

impl View for SyncEvent {
    type V = SyncEventView;

    open spec fn view(&self) -> SyncEventView {
        match self {
            SyncEvent::Announced { entry } => SyncEventView::Announced { entry: entry@ },
            SyncEvent::OtherTraffic => SyncEventView::OtherTraffic,
            SyncEvent::Tick { file_map } => SyncEventView::Tick {
                file_map: optional_bytes(*file_map),
            },
            SyncEvent::Published { done } => SyncEventView::Published { done: *done },
        }
    }
}

/// What the background task asks for next.
#[derive(Debug, Clone, Copy, PartialEq, Eq, Structural)]
pub enum SyncAction {
    /// Wait for the next event.
    Wait,
    /// Answer a peer with one's own files.
    Reply,
    /// Announce a change of one's own files.
    Announce,
}

/// Whether the broker keeps what an action publishes for peers that connect later: it keeps the
/// announcement of a change, but no answer.
pub fn is_retained(action: SyncAction) -> (retained: bool)
    ensures
        retained == (action is Announce),
{
    match action {
        SyncAction::Announce => true,
        SyncAction::Reply | SyncAction::Wait => false,
    }
}

/// The background task together with what it has heard.
pub struct SyncWorld {
    pub state: SyncView,
    pub registry: Seq<FileEntryView>,
}

/// One step of the background task. An announcement of another peer is stored and answered; one's
/// own is passed over. A file map is announced when it differs from the one that was announced
/// last, and counts as announced once that succeeded.
pub open spec fn sync_step(world: SyncWorld, event: SyncEventView) -> (SyncWorld, SyncAction) {
    let state = world.state;
    match event {
        SyncEventView::Announced { entry } => if entry.peer_id == state.own_id {
            (world, SyncAction::Wait)
        } else {
            (SyncWorld { state, registry: upsert(world.registry, entry) }, SyncAction::Reply)
        },
        SyncEventView::OtherTraffic => (world, SyncAction::Wait),
        SyncEventView::Tick { file_map } => if file_map is None || file_map == state.last_payload {
            (world, SyncAction::Wait)
        } else {
            (
                SyncWorld {
                    state: SyncView { pending: file_map, ..state },
                    registry: world.registry,
                },
                SyncAction::Announce,
            )
        },
        SyncEventView::Published { done } => (
            SyncWorld {
                state: SyncView {
                    own_id: state.own_id,
                    last_payload: if done && state.pending is Some {
                        state.pending
                    } else {
                        state.last_payload
                    },
                    pending: None,
                },
                registry: world.registry,
            },
            SyncAction::Wait,
        ),
    }
}

impl SyncState {
    /// A task that has announced nothing yet.
    pub fn new(own_id: String) -> (state: Self)
        ensures
            state@ == (SyncView { own_id: own_id@, last_payload: None, pending: None }),
    {
        SyncState { own_id, last_payload: None, pending: None }
    }

    /// Takes one step.
    pub fn step(&mut self, registry: &mut PeerRegistry, event: SyncEvent) -> (action: SyncAction)
        ensures
            (SyncWorld { state: final(self)@, registry: final(registry)@ }, action) == sync_step(
                SyncWorld { state: old(self)@, registry: old(registry)@ },
                event@,
            ),
    {
        match event {
            SyncEvent::Announced { entry } => {
                if same_text(entry.peer_id.as_str(), self.own_id.as_str()) {
                    return SyncAction::Wait;
                }
                registry.store(entry);
                SyncAction::Reply
            },
            SyncEvent::OtherTraffic => SyncAction::Wait,
            SyncEvent::Tick { file_map } => match file_map {
                Some(bytes) => {
                    let changed: bool = match &self.last_payload {
                        Some(last) => !same_bytes(last.as_slice(), bytes.as_slice()),
                        None => true,
                    };
                    if changed {
                        self.pending = Some(bytes);
                        SyncAction::Announce
                    } else {
                        SyncAction::Wait
                    }
                },
                None => SyncAction::Wait,
            },
            SyncEvent::Published { done } => {
                let pending: Option<Vec<u8>> = self.pending.take();
                if done && pending.is_some() {
                    self.last_payload = pending;
                }
                SyncAction::Wait
            },
        }
    }
}

/// The background task after `events`.
pub open spec fn sync_run(world: SyncWorld, events: Seq<SyncEventView>) -> SyncWorld
    decreases events.len(),
{
    if events.len() == 0 {
        world
    } else {
        sync_step(sync_run(world, events.drop_last()), events.last()).0
    }
}

/// The last announcement of a peer among `events`.
pub open spec fn last_announcement(
    events: Seq<SyncEventView>,
    peer_id: Seq<char>,
) -> Option<FileEntryView>
    decreases events.len(),
{
    if events.len() == 0 {
        None
    } else {
        match events.last() {
            SyncEventView::Announced { entry } if entry.peer_id == peer_id => Some(entry),
            _ => last_announcement(events.drop_last(), peer_id),
        }
    }
}

/// A stored announcement is what is found of its peer afterwards, and nothing else changes.
pub proof fn law_store_and_find(
    entries: Seq<FileEntryView>,
    entry: FileEntryView,
    peer_id: Seq<char>,
)
    ensures
        entry_of(upsert(entries, entry), peer_id) == if peer_id == entry.peer_id {
            Some(entry)
        } else {
            entry_of(entries, peer_id)
        },
    decreases entries.len(),
{
    let after = upsert(entries, entry);
    if entries.len() == 0 {
        assert(after.drop_first() =~= Seq::<FileEntryView>::empty());
        assert(entry_of(after.drop_first(), peer_id) is None);
    } else if entries[0].peer_id == entry.peer_id {
        assert(after.drop_first() =~= entries.drop_first());
    } else {
        assert(after.drop_first() =~= upsert(entries.drop_first(), entry));
        law_store_and_find(entries.drop_first(), entry, peer_id);
    }
}

/// Hearing the same announcement again changes nothing.
pub proof fn law_store_twice(entries: Seq<FileEntryView>, entry: FileEntryView)
    ensures
        upsert(upsert(entries, entry), entry) == upsert(entries, entry),
    decreases entries.len(),
{
    let after = upsert(entries, entry);
    if entries.len() == 0 {
        assert(seq![entry] + after.drop_first() =~= after);
    } else if entries[0].peer_id == entry.peer_id {
        assert(after.drop_first() =~= entries.drop_first());
    } else {
        assert(after.drop_first() =~= upsert(entries.drop_first(), entry));
        law_store_twice(entries.drop_first(), entry);
    }
}

/// From an empty registry on, what is known of every other peer is its last announcement, and
/// nothing is ever stored of the peer itself.
pub proof fn law_registry_holds_last_announcements(
    state: SyncView,
    events: Seq<SyncEventView>,
    peer_id: Seq<char>,
)
    ensures
        ({
            let world = SyncWorld { state, registry: Seq::empty() };
            entry_of(sync_run(world, events).registry, peer_id) == if peer_id == state.own_id {
                None
            } else {
                last_announcement(events, peer_id)
            }
        }),
        sync_run(SyncWorld { state, registry: Seq::empty() }, events).state.own_id == state.own_id,
    decreases events.len(),
{
    let world = SyncWorld { state, registry: Seq::empty() };
    if events.len() > 0 {
        law_registry_holds_last_announcements(state, events.drop_last(), peer_id);
        let before = sync_run(world, events.drop_last());
        if let SyncEventView::Announced { entry } = events.last() {
            law_store_and_find(before.registry, entry, peer_id);
        }
    }
}

/// No peer is known twice, whatever happens.
pub proof fn law_peers_stay_distinct(world: SyncWorld, events: Seq<SyncEventView>)
    requires
        distinct_peers(world.registry),
    ensures
        distinct_peers(sync_run(world, events).registry),
    decreases events.len(),
{
    if events.len() > 0 {
        law_peers_stay_distinct(world, events.drop_last());
        if let SyncEventView::Announced { entry } = events.last() {
            lemma_upsert_distinct(sync_run(world, events.drop_last()).registry, entry);
        }
    }
}

/// Every announcement of another peer is stored and answered, whatever happened before; one's own
/// never is. Either way it changes nothing about one's own announcements.
pub proof fn law_every_other_peer_is_answered(
    world: SyncWorld,
    events: Seq<SyncEventView>,
    entry: FileEntryView,
    peer_id: Seq<char>,
)
    ensures
        ({
            let before = sync_run(world, events);
            let (after, action) = sync_step(before, SyncEventView::Announced { entry });
            &&& entry.peer_id != world.state.own_id <==> action is Reply
            &&& entry.peer_id == world.state.own_id <==> action is Wait
            &&& after.state == before.state
            &&& entry.peer_id == world.state.own_id ==> after.registry == before.registry
            &&& entry.peer_id != world.state.own_id ==> entry_of(after.registry, peer_id)
                == if peer_id == entry.peer_id {
                Some(entry)
            } else {
                entry_of(before.registry, peer_id)
            }
        }),
{
    lemma_own_id_stays(world, events);
    law_store_and_find(sync_run(world, events).registry, entry, peer_id);
}

proof fn lemma_own_id_stays(world: SyncWorld, events: Seq<SyncEventView>)
    ensures
        sync_run(world, events).state.own_id == world.state.own_id,
    decreases events.len(),
{
    if events.len() > 0 {
        lemma_own_id_stays(world, events.drop_last());
    }
}

/// What is known of other peers changes by announcements alone, and other traffic changes nothing.
pub proof fn law_only_announcements_are_stored(world: SyncWorld, event: SyncEventView)
    ensures
        !(event is Announced) ==> sync_step(world, event).0.registry == world.registry,
        !(event is Announced) ==> !(sync_step(world, event).1 is Reply),
        event is OtherTraffic || event == (SyncEventView::Tick { file_map: None }) ==> sync_step(
            world,
            event,
        ) == (world, SyncAction::Wait),
{
}

/// Until something has been announced, every file map that can be read is; and after an attempt to
/// announce one, the next is announced if it differs from the last that was announced with
/// success. Announcements of others in between make no difference.
pub proof fn law_changes_are_announced(
    world: SyncWorld,
    file_map: Seq<u8>,
    done: bool,
    entry: FileEntryView,
    next: Seq<u8>,
)
    ensures
        world.state.last_payload is None ==> sync_step(
            world,
            SyncEventView::Tick { file_map: Some(next) },
        ).1 is Announce,
        ({
            let tick = SyncEventView::Tick { file_map: Some(file_map) };
            let look = SyncEventView::Tick { file_map: Some(next) };
            let (asked, action) = sync_step(world, tick);
            let published = sync_step(asked, SyncEventView::Published { done }).0;
            let heard = sync_step(published, SyncEventView::Announced { entry }).0;
            &&& action is Announce || action is Wait
            &&& action is Wait ==> asked == world
            &&& action is Announce && done ==> (sync_step(heard, look).1 is Announce <==> next
                != file_map)
            &&& action is Announce && !done ==> sync_step(heard, look).1 == sync_step(
                world,
                look,
            ).1
            &&& sync_step(heard, look).1 == sync_step(published, look).1
        }),
{
}

/// Whether the peer `peer_id` is not among `entries`.
pub open spec fn lacks_peer(entries: Seq<FileEntryView>, peer_id: Seq<char>) -> bool {
    forall|i: int| 0 <= i < entries.len() ==> (#[trigger] entries[i]).peer_id != peer_id
}

proof fn lemma_lacks_peer(entries: Seq<FileEntryView>, peer_id: Seq<char>)
    requires
        entry_of(entries, peer_id) is None,
    ensures
        lacks_peer(entries, peer_id),
    decreases entries.len(),
{
    if entries.len() > 0 {
        let rest = entries.drop_first();
        lemma_lacks_peer(rest, peer_id);
        assert forall|i: int| 0 <= i < entries.len() implies (#[trigger] entries[i]).peer_id
            != peer_id by {
            if i > 0 {
                assert(entries[i] == rest[i - 1]);
            }
        }
    }
}

proof fn lemma_filter_keeps_all(entries: Seq<FileEntryView>, peer_id: Seq<char>)
    requires
        lacks_peer(entries, peer_id),
    ensures
        entries_without(entries, peer_id) == entries,
    decreases entries.len(),
{
    reveal(Seq::filter);
    if entries.len() > 0 {
        lemma_filter_keeps_all(entries.drop_last(), peer_id);
        assert(entries.drop_last().push(entries.last()) =~= entries);
    }
}

/// From an empty registry on, leaving out the peer itself leaves out nothing of what was heard.
pub proof fn law_all_heard_peers_are_listed(state: SyncView, events: Seq<SyncEventView>)
    ensures
        ({
            let registry = sync_run(SyncWorld { state, registry: Seq::empty() }, events).registry;
            entries_without(registry, state.own_id) == registry
        }),
{
    law_registry_holds_last_announcements(state, events, state.own_id);
    let registry = sync_run(SyncWorld { state, registry: Seq::empty() }, events).registry;
    lemma_lacks_peer(registry, state.own_id);
    lemma_filter_keeps_all(registry, state.own_id);
}

/// A file map that has been announced is not announced again as long as it stays the same; one
/// whose announcement failed is tried again.
pub proof fn law_announced_once(world: SyncWorld, file_map: Seq<u8>, done: bool)
    requires
        sync_step(world, SyncEventView::Tick { file_map: Some(file_map) }).1 is Announce,
    ensures
        ({
            let tick = SyncEventView::Tick { file_map: Some(file_map) };
            let after = sync_step(
                sync_step(world, tick).0,
                SyncEventView::Published { done },
            ).0;
            sync_step(after, tick).1 is Announce <==> !done
        }),
{
}

/// An answer to a peer never counts as the announcement of a change: it leaves the next look for
/// changes as it was.
pub proof fn law_replies_do_not_count(
    world: SyncWorld,
    entry: FileEntryView,
    done: bool,
    file_map: Option<Seq<u8>>,
)
    requires
        world.state.pending is None,
    ensures
        ({
            let heard = sync_step(world, SyncEventView::Announced { entry }).0;
            let after = sync_step(heard, SyncEventView::Published { done }).0;
            sync_step(after, SyncEventView::Tick { file_map }).1 == sync_step(
                world,
                SyncEventView::Tick { file_map },
            ).1
        }),
{
}

/// An event stands for all that it carries.
pub proof fn law_sync_event_is_its_fields(entry: FileEntry, file_map: Vec<u8>, done: bool)
    ensures
        (SyncEvent::Announced { entry })@ == (SyncEventView::Announced { entry: entry@ }),
        SyncEvent::OtherTraffic@ == SyncEventView::OtherTraffic,
        (SyncEvent::Tick { file_map: Some(file_map) })@ == (SyncEventView::Tick {
            file_map: Some(file_map@),
        }),
        (SyncEvent::Tick { file_map: None })@ == (SyncEventView::Tick { file_map: None }),
        (SyncEvent::Published { done })@ == (SyncEventView::Published { done }),
{
}

} // verus!
