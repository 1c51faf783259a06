//! Shared files and the map that holds them by their identifiers.

use vstd::prelude::*;

use crate::order::{
    is_before, lemma_text_before_irreflexive, lemma_text_before_total,
    lemma_text_before_transitive, text_before,
};
use crate::text::same_text;

verus! {

/// What a peer announces of one shared file.
#[derive(Debug)]
pub struct FileInfo {
    /// The identifier under which the file can be asked for.
    pub id: String,
    /// The name under which the file is served.
    pub name: String,
    /// The extension of the name in lower case, or `unknown`.
    pub file_type: String,
    /// The size of the file in bytes.
    pub size: u64,
    /// The sealed address of the peer that serves the file.
    pub url: String,
}

/// A `FileInfo` as mathematical values.
#[verifier::ext_equal]
pub struct FileInfoView {
    pub id: Seq<char>,
    pub name: Seq<char>,
    pub file_type: Seq<char>,
    pub size: u64,
    pub url: Seq<char>,
}

impl View for FileInfo {
    type V = FileInfoView;

    open spec fn view(&self) -> FileInfoView {
        FileInfoView {
            id: self.id@,
            name: self.name@,
            file_type: self.file_type@,
            size: self.size,
            url: self.url@,
        }
    }
}

impl Clone for FileInfo {
    fn clone(&self) -> (copy: Self)
        ensures
            copy == *self,
    {
        FileInfo {
            id: self.id.clone(),
            name: self.name.clone(),
            file_type: self.file_type.clone(),
            size: self.size,
            url: self.url.clone(),
        }
    }
}

/// One entry of a `FileMap`.
#[derive(Debug)]
pub struct FileRecord {
    pub key: String,
    pub info: FileInfo,
}

impl View for FileRecord {
    type V = (Seq<char>, FileInfoView);

    open spec fn view(&self) -> (Seq<char>, FileInfoView) {
        (self.key@, self.info@)
    }
}

impl Clone for FileRecord {
    fn clone(&self) -> (copy: Self)
        ensures
            copy == *self,
    {
        FileRecord { key: self.key.clone(), info: self.info.clone() }
    }
}

/// The contents of a `FileMap`.
pub type FileMapView = Map<Seq<char>, FileInfoView>;

/// Whether the keys of `pairs` increase.
pub open spec fn increasing(pairs: Seq<(Seq<char>, FileInfoView)>) -> bool {
    forall|i: int, j: int|
        0 <= i < j < pairs.len() ==> text_before(#[trigger] pairs[i].0, #[trigger] pairs[j].0)
}

/// Whether `pairs` holds `key`.
pub open spec fn lists_key(pairs: Seq<(Seq<char>, FileInfoView)>, key: Seq<char>) -> bool {
    exists|i: int| 0 <= i < pairs.len() && #[trigger] pairs[i].0 == key
}

/// Whether `pairs` are the entries of `map` in the order of their keys.
pub open spec fn is_listing(pairs: Seq<(Seq<char>, FileInfoView)>, map: FileMapView) -> bool {
    &&& increasing(pairs)
    &&& forall|i: int|
        0 <= i < pairs.len() ==> #[trigger] map.contains_key(pairs[i].0) && map[pairs[i].0]
            == pairs[i].1
    &&& forall|key: Seq<char>| #[trigger] map.contains_key(key) ==> lists_key(pairs, key)
}

/// The entries of `map` in the order of their keys.
pub open spec fn listing(map: FileMapView) -> Seq<(Seq<char>, FileInfoView)> {
    choose|pairs: Seq<(Seq<char>, FileInfoView)>| is_listing(pairs, map)
}

/// A position at which `pairs` holds `key`.
pub open spec fn position_of(pairs: Seq<(Seq<char>, FileInfoView)>, key: Seq<char>) -> int {
    choose|i: int| 0 <= i < pairs.len() && #[trigger] pairs[i].0 == key
}

/// Whether `map` has a listing, as the contents of every `FileMap` have.
pub open spec fn can_be_listed(map: FileMapView) -> bool {
    exists|pairs: Seq<(Seq<char>, FileInfoView)>| is_listing(pairs, map)
}

/// The map with the entries `pairs`.
pub open spec fn map_of(pairs: Seq<(Seq<char>, FileInfoView)>) -> FileMapView {
    Map::new(
        |key: Seq<char>| lists_key(pairs, key),
        |key: Seq<char>| pairs[position_of(pairs, key)].1,
    )
}

proof fn lemma_increasing_distinct(pairs: Seq<(Seq<char>, FileInfoView)>, i: int, j: int)
    requires
        increasing(pairs),
        0 <= i < pairs.len(),
        0 <= j < pairs.len(),
        pairs[i].0 == pairs[j].0,
    ensures
        i == j,
{
    lemma_text_before_irreflexive(pairs[i].0);
    if i < j {
        assert(text_before(pairs[i].0, pairs[j].0));
    } else if j < i {
        assert(text_before(pairs[j].0, pairs[i].0));
    }
}

/// Increasing pairs are the listing of their own map.
pub proof fn lemma_map_of(pairs: Seq<(Seq<char>, FileInfoView)>)
    requires
        increasing(pairs),
    ensures
        is_listing(pairs, map_of(pairs)),
{
    let map = map_of(pairs);
    assert forall|i: int| 0 <= i < pairs.len() implies #[trigger] map.contains_key(pairs[i].0)
        && map[pairs[i].0] == pairs[i].1 by {
        let key = pairs[i].0;
        assert(lists_key(pairs, key));
        lemma_increasing_distinct(pairs, i, position_of(pairs, key));
    }
}

/// A listing has only one map.
pub proof fn lemma_listed_map_unique(
    pairs: Seq<(Seq<char>, FileInfoView)>,
    m: FileMapView,
    n: FileMapView,
)
    requires
        is_listing(pairs, m),
        is_listing(pairs, n),
    ensures
        m == n,
{
    assert forall|key: Seq<char>|
        m.contains_key(key) == n.contains_key(key) && (m.contains_key(key) ==> m[key]
            == n[key]) by {
        if m.contains_key(key) || n.contains_key(key) {
            assert(lists_key(pairs, key));
            let i = position_of(pairs, key);
            assert(m.contains_key(pairs[i].0) && n.contains_key(pairs[i].0));
        }
    }
    assert(m =~= n);
}

/// A map has only one listing.
pub proof fn lemma_listing_unique(
    s: Seq<(Seq<char>, FileInfoView)>,
    t: Seq<(Seq<char>, FileInfoView)>,
    map: FileMapView,
)
    requires
        is_listing(s, map),
        is_listing(t, map),
    ensures
        s == t,
    decreases s.len(),
{
    if s.len() == 0 {
        if t.len() > 0 {
            assert(map.contains_key(t[0].0));
            assert(lists_key(s, t[0].0));
        }
        assert(s =~= t);
    } else {
        assert(map.contains_key(s[0].0));
        assert(lists_key(t, s[0].0));
        let j = position_of(t, s[0].0);
        assert(map.contains_key(t[0].0));
        assert(lists_key(s, t[0].0));
        let i = position_of(s, t[0].0);
        if i > 0 && j > 0 {
            assert(text_before(s[0].0, s[i].0));
            assert(text_before(t[0].0, t[j].0));
            lemma_text_before_transitive(s[0].0, t[0].0, s[0].0);
            lemma_text_before_irreflexive(s[0].0);
        }
        assert(s[0].0 == t[0].0);
        assert(s[0] == t[0]);
        lemma_listing_tail(s, map);
        lemma_listing_tail(t, map);
        lemma_listing_unique(s.drop_first(), t.drop_first(), map.remove(s[0].0));
        assert(s =~= seq![s[0]] + s.drop_first());
        assert(t =~= seq![t[0]] + t.drop_first());
    }
}

proof fn lemma_listing_tail(pairs: Seq<(Seq<char>, FileInfoView)>, map: FileMapView)
    requires
        is_listing(pairs, map),
        pairs.len() > 0,
    ensures
        is_listing(pairs.drop_first(), map.remove(pairs[0].0)),
{
    let tail = pairs.drop_first();
    let rest = map.remove(pairs[0].0);
    assert forall|i: int| 0 <= i < tail.len() implies #[trigger] rest.contains_key(tail[i].0)
        && rest[tail[i].0] == tail[i].1 by {
        assert(tail[i] == pairs[i + 1]);
        assert(map.contains_key(pairs[i + 1].0));
        if pairs[i + 1].0 == pairs[0].0 {
            lemma_increasing_distinct(pairs, 0, i + 1);
        }
    }
    assert forall|key: Seq<char>| #[trigger] rest.contains_key(key) implies lists_key(
        tail,
        key,
    ) by {
        assert(map.contains_key(key));
        assert(lists_key(pairs, key));
        let i = position_of(pairs, key);
        assert(tail[i - 1] == pairs[i]);
    }
    assert(increasing(tail));
}

/// The listing of a map is what lists it.
pub proof fn lemma_listing(pairs: Seq<(Seq<char>, FileInfoView)>, map: FileMapView)
    requires
        is_listing(pairs, map),
    ensures
        listing(map) == pairs,
{
    lemma_listing_unique(listing(map), pairs, map);
}

/// Shared files by their identifiers.
#[derive(Debug)]
pub struct FileMap {
    records: Vec<FileRecord>,
}

impl View for FileMap {
    type V = FileMapView;

    closed spec fn view(&self) -> FileMapView {
        map_of(self.pairs())
    }
}

impl FileMap {
    spec fn pairs(&self) -> Seq<(Seq<char>, FileInfoView)> {
        self.records@.map_values(|record: FileRecord| record@)
    }

    #[verifier::type_invariant]
    spec fn keys_increase(&self) -> bool {
        increasing(self.pairs())
    }

    /// A map without entries.
    pub fn new() -> (map: Self)
        ensures
            map@ == FileMapView::empty(),
    {
        let map: FileMap = FileMap { records: Vec::new() };
        assert(map@ =~= FileMapView::empty());
        map
    }

    /// Puts `info` under `key`, in place of what was there.
    pub fn insert(&mut self, key: String, info: FileInfo)
        ensures
            final(self)@ == old(self)@.insert(key@, info@),
    {
        proof {
            use_type_invariant(&*self);
            lemma_map_of(self.pairs());
        }
        let ghost before = self.pairs();
        let mut records: Vec<FileRecord> = Vec::new();
        std::mem::swap(&mut records, &mut self.records);
        let mut at: usize = 0;
        while at < records.len() && is_before(records[at].key.as_str(), key.as_str())
            invariant
                at <= records@.len(),
                before == records@.map_values(|record: FileRecord| record@),
                forall|i: int| 0 <= i < at ==> text_before((#[trigger] before[i]).0, key@),
            decreases records@.len() - at,
        {
            assert(before[at as int] == records@[at as int]@);
            at = at + 1;
        }
        let ghost pair = (key@, info@);
        let ghost map = map_of(before).insert(key@, info@);
        if at < records.len() && same_text(records[at].key.as_str(), key.as_str()) {
            proof {
                assert(before[at as int] == records@[at as int]@);
                lemma_replaced(before, at as int, pair);
                lemma_map_of(before.update(at as int, pair));
                lemma_listed_map_unique(
                    before.update(at as int, pair),
                    map_of(before.update(at as int, pair)),
                    map,
                );
            }
            records.set(at, FileRecord { key, info });
            assert(records@.map_values(|record: FileRecord| record@) =~= before.update(
                at as int,
                pair,
            ));
        } else {
            proof {
                if at < records.len() {
                    assert(before[at as int] == records@[at as int]@);
                    lemma_text_before_total(before[at as int].0, key@);
                }
                lemma_inserted(before, at as int, pair);
                lemma_map_of(before.insert(at as int, pair));
                lemma_listed_map_unique(
                    before.insert(at as int, pair),
                    map_of(before.insert(at as int, pair)),
                    map,
                );
            }
            records.insert(at, FileRecord { key, info });
            assert(records@.map_values(|record: FileRecord| record@) =~= before.insert(
                at as int,
                pair,
            ));
        }
        self.records = records;
    }

    /// What is under `key`.
    pub fn get(&self, key: &str) -> (found: Option<&FileInfo>)
        ensures
            match found {
                Some(info) => self@.contains_key(key@) && info@ == self@[key@],
                None => !self@.contains_key(key@),
            },
    {
        proof {
            use_type_invariant(self);
            lemma_map_of(self.pairs());
        }
        let mut i: usize = 0;
        while i < self.records.len()
            invariant
                i <= self.records@.len(),
                is_listing(self.pairs(), self@),
                forall|j: int| 0 <= j < i ==> (#[trigger] self.pairs()[j]).0 != key@,
            decreases self.records@.len() - i,
        {
            assert(self.pairs()[i as int] == self.records@[i as int]@);
            if same_text(self.records[i].key.as_str(), key) {
                assert(self@.contains_key(self.pairs()[i as int].0));
                return Some(&self.records[i].info);
            }
            i = i + 1;
        }
        None
    }

    /// The entries in the order of their keys.
    pub fn records(&self) -> (records: &Vec<FileRecord>)
        ensures
            records@.map_values(|record: FileRecord| record@) == listing(self@),
            is_listing(listing(self@), self@),
    {
        proof {
            use_type_invariant(self);
            lemma_map_of(self.pairs());
            lemma_listing(self.pairs(), self@);
        }
        &self.records
    }
}

impl Clone for FileMap {
    fn clone(&self) -> (copy: Self)
        ensures
            copy@ == self@,
    {
        proof {
            use_type_invariant(self);
        }
        let mut records: Vec<FileRecord> = Vec::new();
        let mut i: usize = 0;
        while i < self.records.len()
            invariant
                i <= self.records@.len(),
                records@ == self.records@.take(i as int),
            decreases self.records@.len() - i,
        {
            records.push(self.records[i].clone());
            i = i + 1;
        }
        assert(records@ == self.records@);
        FileMap { records }
    }
}

proof fn lemma_replaced(
    before: Seq<(Seq<char>, FileInfoView)>,
    at: int,
    pair: (Seq<char>, FileInfoView),
)
    requires
        increasing(before),
        0 <= at < before.len(),
        before[at].0 == pair.0,
    ensures
        increasing(before.update(at, pair)),
        is_listing(before.update(at, pair), map_of(before).insert(pair.0, pair.1)),
{
    lemma_map_of(before);
    let after = before.update(at, pair);
    let map = map_of(before).insert(pair.0, pair.1);
    assert forall|i: int| 0 <= i < after.len() implies #[trigger] map.contains_key(after[i].0)
        && map[after[i].0] == after[i].1 by {
        if i != at {
            assert(map_of(before).contains_key(before[i].0));
            if before[i].0 == pair.0 {
                lemma_increasing_distinct(before, i, at);
            }
        }
    }
    assert forall|key: Seq<char>| #[trigger] map.contains_key(key) implies lists_key(
        after,
        key,
    ) by {
        if key == pair.0 {
            assert(after[at].0 == key);
        } else {
            assert(lists_key(before, key));
            let i = position_of(before, key);
            assert(after[i].0 == key);
        }
    }
    assert(increasing(after)) by {
        assert forall|i: int, j: int| 0 <= i < j < after.len() implies text_before(
            #[trigger] after[i].0,
            #[trigger] after[j].0,
        ) by {
            assert(text_before(before[i].0, before[j].0));
        }
    }
}

proof fn lemma_inserted(
    before: Seq<(Seq<char>, FileInfoView)>,
    at: int,
    pair: (Seq<char>, FileInfoView),
)
    requires
        increasing(before),
        0 <= at <= before.len(),
        forall|i: int| 0 <= i < at ==> text_before((#[trigger] before[i]).0, pair.0),
        at < before.len() ==> text_before(pair.0, before[at].0),
    ensures
        increasing(before.insert(at, pair)),
        is_listing(before.insert(at, pair), map_of(before).insert(pair.0, pair.1)),
{
    lemma_map_of(before);
    let after = before.insert(at, pair);
    let map = map_of(before).insert(pair.0, pair.1);
    assert forall|i: int| at <= i < before.len() implies text_before(
        pair.0,
        (#[trigger] before[i]).0,
    ) by {
        if i > at {
            assert(text_before(before[at].0, before[i].0));
            lemma_text_before_transitive(pair.0, before[at].0, before[i].0);
        }
    }
    assert forall|i: int| 0 <= i < before.len() implies (#[trigger] before[i]).0 != pair.0 by {
        lemma_text_before_irreflexive(pair.0);
    }
    assert(increasing(after)) by {
        assert forall|i: int, j: int| 0 <= i < j < after.len() implies text_before(
            #[trigger] after[i].0,
            #[trigger] after[j].0,
        ) by {
            let old_i = if i < at { i } else { i - 1 };
            let old_j = if j < at { j } else { j - 1 };
            if i == at {
                assert(after[j] == before[old_j]);
            } else if j == at {
                assert(after[i] == before[old_i]);
            } else {
                assert(text_before(before[old_i].0, before[old_j].0));
            }
        }
    }
    assert forall|i: int| 0 <= i < after.len() implies #[trigger] map.contains_key(after[i].0)
        && map[after[i].0] == after[i].1 by {
        if i != at {
            let old_i = if i < at { i } else { i - 1 };
            assert(after[i] == before[old_i]);
            assert(map_of(before).contains_key(before[old_i].0));
        }
    }
    assert forall|key: Seq<char>| #[trigger] map.contains_key(key) implies lists_key(
        after,
        key,
    ) by {
        if key == pair.0 {
            assert(after[at].0 == key);
        } else {
            assert(lists_key(before, key));
            let i = position_of(before, key);
            assert(after[if i < at { i } else { i + 1 }].0 == key);
        }
    }
}

/// A description and an entry stand for what their fields hold, in full.
pub proof fn law_record_is_its_fields(record: FileRecord)
    ensures
        record@.0 == record.key@,
        record@.1 == record.info@,
        record.info@.id == record.info.id@,
        record.info@.name == record.info.name@,
        record.info@.file_type == record.info.file_type@,
        record.info@.size == record.info.size,
        record.info@.url == record.info.url@,
{
}

} // verus!
