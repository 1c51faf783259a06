//! The files of other peers: listing them, and finding where one of them is served.

use vstd::prelude::*;
use vstd::utf8::encode_utf8;

use crate::directory_scan::tidy;
use crate::file_map::{
    can_be_listed, is_listing, listing, lists_key, position_of, FileInfo, FileInfoView,
    FileMapView, FileRecord,
};
use crate::mqtt_sync::{entry_views, FileEntry, FileEntryView};
use crate::onion_client::{
    host_char, path_char, plain_url, plan_for, PlanView, DEFAULT_PORT, MAX_URL_LEN,
};
use crate::sealed_url::{decrypt_url, decrypted_url, encrypted_url};
use crate::text::{after_last, lemma_after_last};

verus! {

/// One line of the list of files.
#[derive(Debug)]
pub struct UploadRow {
    pub hash: String,
    pub filename: String,
    pub file_type: String,
    pub size: u64,
}

/// An `UploadRow` as mathematical values.
#[verifier::ext_equal]
pub struct UploadRowView {
    pub hash: Seq<char>,
    pub filename: Seq<char>,
    pub file_type: Seq<char>,
    pub size: u64,
}

impl View for UploadRow {
    type V = UploadRowView;

    open spec fn view(&self) -> UploadRowView {
        UploadRowView {
            hash: self.hash@,
            filename: self.filename@,
            file_type: self.file_type@,
            size: self.size,
        }
    }
}

/// The line for a file.
pub open spec fn row_of(info: FileInfoView) -> UploadRowView {
    UploadRowView {
        hash: info.id,
        filename: info.name,
        file_type: info.file_type,
        size: info.size,
    }
}

/// The lines for the files of one peer, in the order of their identifiers.
pub open spec fn rows_of_peer(files: FileMapView) -> Seq<UploadRowView> {
    listing(files).map_values(|pair: (Seq<char>, FileInfoView)| row_of(pair.1))
}

/// The lines for the files of all peers, one peer after the other.
pub open spec fn rows_of(entries: Seq<FileEntryView>) -> Seq<UploadRowView>
    decreases entries.len(),
{
    if entries.len() == 0 {
        Seq::empty()
    } else {
        rows_of(entries.drop_last()) + rows_of_peer(entries.last().files)
    }
}

/// Lines as mathematical values.
pub open spec fn row_views(rows: Seq<UploadRow>) -> Seq<UploadRowView> {
    rows.map_values(|row: UploadRow| row@)
}

/// Lists the files of all peers.
pub fn upload_rows(entries: &Vec<FileEntry>) -> (rows: Vec<UploadRow>)
    ensures
        row_views(rows@) == rows_of(entry_views(entries@)),
        rows@.len() == rows_of(entry_views(entries@)).len(),
        forall|j: int|
            #![trigger rows@[j]]
            0 <= j < rows@.len() ==> {
                let shown = rows_of(entry_views(entries@))[j];
                &&& rows@[j].hash@ == shown.hash
                &&& rows@[j].filename@ == shown.filename
                &&& rows@[j].file_type@ == shown.file_type
                &&& rows@[j].size == shown.size
            },
        forall|i: int|
            0 <= i < entries@.len() ==> can_be_listed((#[trigger] entries@[i]).files@),
{
    let mut rows: Vec<UploadRow> = Vec::new();
    let ghost peers = entry_views(entries@);
    let mut i: usize = 0;
    proof {
        assert(row_views(rows@) =~= Seq::<UploadRowView>::empty());
        assert(peers.take(0) =~= Seq::<FileEntryView>::empty());
    }
    while i < entries.len()
        invariant
            i <= entries@.len(),
            peers == entry_views(entries@),
            row_views(rows@) == rows_of(peers.take(i as int)),
            forall|k: int| 0 <= k < i ==> can_be_listed((#[trigger] entries@[k]).files@),
        decreases entries@.len() - i,
    {
        let records: &Vec<FileRecord> = entries[i].files.records();
        let ghost before = row_views(rows@);
        let ghost own = rows_of_peer(entries@[i as int].files@);
        proof {
            assert(own.take(0) =~= Seq::<UploadRowView>::empty());
            assert(own.len() == records@.len());
        }
        let mut j: usize = 0;
        while j < records.len()
            invariant
                j <= records@.len() == own.len(),
                own == rows_of_peer(entries@[i as int].files@),
                records@.map_values(|record: FileRecord| record@) == listing(
                    entries@[i as int].files@,
                ),
                row_views(rows@) == before + own.take(j as int),
            decreases records@.len() - j,
        {
            let info: &FileInfo = &records[j].info;
            let row: UploadRow = UploadRow {
                hash: info.id.clone(),
                filename: info.name.clone(),
                file_type: info.file_type.clone(),
                size: info.size,
            };
            proof {
                assert(records@.map_values(|record: FileRecord| record@)[j as int]
                    == records@[j as int]@);
                assert(own[j as int] == row@);
            }
            let ghost shown = row_views(rows@);
            let ghost view = row@;
            rows.push(row);
            proof {
                assert(row_views(rows@) =~= shown.push(view));
                assert(own.take(j + 1) =~= own.take(j as int).push(own[j as int]));
            }
            j = j + 1;
        }
        proof {
            assert(own.take(own.len() as int) =~= own);
            assert(peers.take(i + 1).drop_last() =~= peers.take(i as int));
            assert(peers[i as int] == entries@[i as int]@);
        }
        i = i + 1;
    }
    proof {
        assert(peers.take(peers.len() as int) =~= peers);
        assert forall|j: int| #![trigger rows@[j]] 0 <= j < rows@.len() implies rows@[j]@ == rows_of(
            peers,
        )[j] by {
            assert(row_views(rows@)[j] == rows@[j]@);
        }
    }
    rows
}

/// The file with an identifier, from the first peer that has it.
pub open spec fn found_file(entries: Seq<FileEntryView>, hash: Seq<char>) -> Option<FileInfoView>
    decreases entries.len(),
{
    if entries.len() == 0 {
        None
    } else if entries[0].files.contains_key(hash) {
        Some(entries[0].files[hash])
    } else {
        found_file(entries.drop_first(), hash)
    }
}

/// Finds the file with an identifier.
pub fn find_file<'a>(entries: &'a Vec<FileEntry>, hash: &str) -> (found: Option<&'a FileInfo>)
    ensures
        match found {
            Some(info) => found_file(entry_views(entries@), hash@) == Some(info@),
            None => found_file(entry_views(entries@), hash@) is None,
        },
{
    let ghost peers = entry_views(entries@);
    let mut i: usize = 0;
    assert(peers.skip(0) =~= peers);
    while i < entries.len()
        invariant
            i <= entries@.len(),
            peers == entry_views(entries@),
            found_file(peers, hash@) == found_file(peers.skip(i as int), hash@),
        decreases entries@.len() - i,
    {
        proof {
            assert(peers.skip(i as int)[0] == entries@[i as int]@);
            assert(peers.skip(i as int).drop_first() =~= peers.skip(i + 1));
        }
        if let Some(info) = entries[i].files.get(hash) {
            return Some(info);
        }
        i = i + 1;
    }
    None
}

/// The URL under which the peer at `address` serves the file `name`.
pub open spec fn destination_of(address: Seq<char>, name: Seq<char>) -> Seq<char> {
    "http://"@ + address + "/static/"@ + name
}

/// The URL under which the peer at `address` serves the file `name`.
pub fn destination_url(address: &str, name: &str) -> (url: String)
    ensures
        url@ == destination_of(address@, name@),
{
    let mut url: String = "http://".to_string();
    url.append(address);
    url.append("/static/");
    url.append(name);
    url
}

/// Finds the URL of the file with an identifier: the address that its peer announced, opened, with
/// the file's name.
pub fn resolve_download(entries: &Vec<FileEntry>, hash: &str) -> (url: Option<String>)
    ensures
        match found_file(entry_views(entries@), hash@) {
            Some(info) => url matches Some(url) && url@ == destination_of(
                decrypted_url(info.url),
                info.name,
            ),
            None => url is None,
        },
{
    match find_file(entries, hash) {
        Some(info) => {
            let address: String = decrypt_url(info.url.as_str());
            Some(destination_url(address.as_str(), info.name.as_str()))
        },
        None => None,
    }
}

/// What is said about an identifier that no peer has.
pub fn hash_not_found_text(hash: &str) -> (text: String)
    ensures
        text@ == "Hash '"@ + hash@ + "' not found."@,
{
    let mut text: String = "Hash '".to_string();
    text.append(hash);
    text.append("' not found.");
    text
}

/// Every file of every peer has its line in the list.
pub proof fn law_every_file_is_listed(entries: Seq<FileEntryView>, peer: int, id: Seq<char>)
    requires
        0 <= peer < entries.len(),
        entries[peer].files.contains_key(id),
        can_be_listed(entries[peer].files),
    ensures
        rows_of(entries).contains(row_of(entries[peer].files[id])),
    decreases entries.len(),
{
    let earlier = rows_of(entries.drop_last());
    let own = rows_of_peer(entries.last().files);
    let row = row_of(entries[peer].files[id]);
    if peer == entries.len() - 1 {
        let pairs = listing(entries[peer].files);
        assert(is_listing(pairs, entries[peer].files));
        assert(lists_key(pairs, id));
        let i = position_of(pairs, id);
        assert(entries[peer].files.contains_key(pairs[i].0));
        assert(own[i] == row);
        assert((earlier + own)[earlier.len() + i] == row);
    } else {
        assert(entries.drop_last()[peer] == entries[peer]);
        law_every_file_is_listed(entries.drop_last(), peer, id);
        let i = earlier.index_of(row);
        assert((earlier + own)[i] == row);
    }
}

/// A file is found if and only if a peer has it.
pub proof fn law_found_if_announced(entries: Seq<FileEntryView>, hash: Seq<char>)
    ensures
        found_file(entries, hash) is Some <==> exists|i: int|
            0 <= i < entries.len() && (#[trigger] entries[i]).files.contains_key(hash),
    decreases entries.len(),
{
    if entries.len() > 0 {
        let rest = entries.drop_first();
        law_found_if_announced(rest, hash);
        if found_file(rest, hash) is Some {
            let i = choose|i: int|
                0 <= i < rest.len() && (#[trigger] rest[i]).files.contains_key(hash);
            assert(entries[i + 1] == rest[i]);
        }
        if exists|i: int|
            0 <= i < entries.len() && (#[trigger] entries[i]).files.contains_key(hash) {
            let i = choose|i: int|
                0 <= i < entries.len() && (#[trigger] entries[i]).files.contains_key(hash);
            if i > 0 {
                assert(rest[i - 1] == entries[i]);
            }
        }
    }
}

/// A file that a peer shares is found where that peer serves it: its URL names the peer's own
/// address, not a sealed form of it, and the name under which the file is served. The address is
/// one that could be sealed: its sealed form opens to it, as `encrypt_url` ensures.
pub proof fn law_shared_file_is_found(
    entries: Seq<FileEntryView>,
    peer: int,
    id: Seq<char>,
    address: Seq<char>,
)
    requires
        0 <= peer < entries.len(),
        tidy(entries[peer].files, Some(address)),
        entries[peer].files.contains_key(id),
        forall|i: int| 0 <= i < peer ==> !(#[trigger] entries[i]).files.contains_key(id),
        decrypted_url(encrypted_url(address)) == address,
    ensures
        found_file(entries, id) matches Some(info) && info.id == id && !info.name.contains(' ')
            && destination_of(decrypted_url(info.url), info.name) == destination_of(
            address,
            info.name,
        ),
    decreases entries.len(),
{
    if peer > 0 {
        let rest = entries.drop_first();
        assert(!entries[0].files.contains_key(id));
        assert(rest[peer - 1] == entries[peer]);
        assert forall|i: int| 0 <= i < peer - 1 implies !(#[trigger] rest[i]).files.contains_key(
            id,
        ) by {
            assert(rest[i] == entries[i + 1]);
        }
        law_shared_file_is_found(rest, peer - 1, id, address);
    }
}

/// Whether a name can stand in a URL as it is.
pub open spec fn url_safe_name(name: Seq<char>) -> bool {
    &&& name.len() > 0
    &&& forall|i: int| 0 <= i < name.len() ==> path_char(#[trigger] name[i]) && name[i] != '/'
}

/// Whether an address is a plain host name.
pub open spec fn plain_host(address: Seq<char>) -> bool {
    &&& address.len() > 0
    &&& forall|i: int| 0 <= i < address.len() ==> host_char(#[trigger] address[i])
}

/// An announced file is fetched from where it is served, and stored under its own name: the plan
/// for its URL asks the announced address, on the default port, for the file below the route for
/// shared files.
pub proof fn law_announced_file_is_fetched(address: Seq<char>, name: Seq<char>)
    requires
        plain_host(address),
        url_safe_name(name),
        encode_utf8(destination_of(address, name)).len() <= MAX_URL_LEN,
    ensures
        plain_url(destination_of(address, name), address, "/static/"@ + name),
        plan_for(address, None, Some("/static/"@ + name)) == (PlanView {
            host: address,
            port: DEFAULT_PORT,
            target: "/static/"@ + name,
            file_name: name,
        }),
{
    let path = "/static/"@ + name;
    reveal_strlit("/static/");
    assert("http://"@ + address + path =~= destination_of(address, name));
    assert forall|i: int| 0 <= i < path.len() implies path_char(#[trigger] path[i]) by {
        if i >= 8 {
            assert(path[i] == name[i - 8]);
        }
    }
    lemma_after_last(path, '/');
    let tail = after_last(path, '/');
    let cut = path.len() - tail.len();
    if cut > 8 {
        assert(path[cut - 1] == name[cut - 9]);
    }
    if cut < 8 {
        assert(tail[7 - cut] == path[7]);
        assert(tail.contains('/'));
    }
    assert(tail =~= name);
}

/// Whether a line shows a file: its identifier, its name, its type and its size.
pub open spec fn shows(row: UploadRowView, info: FileInfoView) -> bool {
    &&& row.hash == info.id
    &&& row.filename == info.name
    &&& row.file_type == info.file_type
    &&& row.size == info.size
}

/// Whether the `i`th peer has the file with an identifier.
pub open spec fn peer_has(entries: Seq<FileEntryView>, i: int, id: Seq<char>) -> bool {
    0 <= i < entries.len() && entries[i].files.contains_key(id)
}

/// Every line shows a file of a peer, with all that the list says of it.
pub proof fn law_every_line_shows_a_file(entries: Seq<FileEntryView>, j: int)
    requires
        forall|i: int| 0 <= i < entries.len() ==> can_be_listed((#[trigger] entries[i]).files),
        0 <= j < rows_of(entries).len(),
    ensures
        exists|i: int, id: Seq<char>| #[trigger]
            peer_has(entries, i, id) && shows(rows_of(entries)[j], entries[i].files[id]),
    decreases entries.len(),
{
    let last = entries.len() - 1;
    let before = entries.drop_last();
    let earlier = rows_of(before);
    let own = rows_of_peer(entries.last().files);
    assert(rows_of(entries) == earlier + own);
    if j < earlier.len() {
        assert forall|i: int| 0 <= i < before.len() implies can_be_listed(
            (#[trigger] before[i]).files,
        ) by {
            assert(before[i] == entries[i]);
        }
        law_every_line_shows_a_file(before, j);
        let (i, id) = choose|i: int, id: Seq<char>| #[trigger]
            peer_has(before, i, id) && shows(rows_of(before)[j], before[i].files[id]);
        assert(before[i] == entries[i]);
        assert(peer_has(entries, i, id));
    } else {
        let files = entries[last].files;
        let pairs = listing(files);
        assert(can_be_listed(entries[last].files));
        assert(is_listing(pairs, files));
        let k = j - earlier.len();
        assert(files.contains_key(pairs[k].0));
        assert(own[k] == rows_of(entries)[j]);
        assert(peer_has(entries, last, pairs[k].0));
        assert(shows(rows_of(entries)[j], files[pairs[k].0]));
    }
}

/// Every file of every peer is shown by a line.
pub proof fn law_every_file_is_shown(entries: Seq<FileEntryView>, peer: int, id: Seq<char>)
    requires
        0 <= peer < entries.len(),
        entries[peer].files.contains_key(id),
        can_be_listed(entries[peer].files),
    ensures
        exists|j: int|
            0 <= j < rows_of(entries).len() && shows(
                #[trigger] rows_of(entries)[j],
                entries[peer].files[id],
            ),
{
    law_every_file_is_listed(entries, peer, id);
    let row = row_of(entries[peer].files[id]);
    let j = rows_of(entries).index_of(row);
    assert(shows(rows_of(entries)[j], entries[peer].files[id]));
}

/// The list goes peer by peer, and shows each file of a peer once, in the order of the
/// identifiers.
pub proof fn law_list_goes_peer_by_peer(
    front: Seq<FileEntryView>,
    entry: FileEntryView,
    back: Seq<FileEntryView>,
)
    requires
        can_be_listed(entry.files),
    ensures
        rows_of(Seq::empty()) == Seq::<UploadRowView>::empty(),
        rows_of(front + back) == rows_of(front) + rows_of(back),
        is_listing(listing(entry.files), entry.files),
        rows_of(seq![entry]).len() == listing(entry.files).len(),
        forall|j: int|
            0 <= j < listing(entry.files).len() ==> shows(
                #[trigger] rows_of(seq![entry])[j],
                listing(entry.files)[j].1,
            ),
    decreases back.len(),
{
    let one = seq![entry];
    assert(rows_of(one.drop_last()) =~= Seq::<UploadRowView>::empty());
    assert(rows_of(one) =~= rows_of_peer(entry.files));
    if back.len() == 0 {
        assert(front + back =~= front);
        assert(rows_of(back) =~= Seq::<UploadRowView>::empty());
    } else {
        law_list_goes_peer_by_peer(front, entry, back.drop_last());
        assert((front + back).drop_last() =~= front + back.drop_last());
        assert((front + back).last() == back.last());
        assert(rows_of(front + back) =~= rows_of(front) + rows_of(back));
    }
}

/// Whether every peer has its files under their own identifiers.
pub open spec fn own_identifiers(entries: Seq<FileEntryView>) -> bool {
    forall|i: int, id: Seq<char>| #[trigger]
        peer_has(entries, i, id) ==> entries[i].files[id].id == id
}

/// What the list shows can be asked for: of files under their own identifiers, the hash in any
/// line leads to a file with that identifier.
pub proof fn law_listed_files_are_found(entries: Seq<FileEntryView>, j: int)
    requires
        forall|i: int| 0 <= i < entries.len() ==> can_be_listed((#[trigger] entries[i]).files),
        own_identifiers(entries),
        0 <= j < rows_of(entries).len(),
    ensures
        found_file(entries, rows_of(entries)[j].hash) matches Some(info) && info.id == rows_of(
            entries,
        )[j].hash,
{
    law_every_line_shows_a_file(entries, j);
    let (i, id) = choose|i: int, id: Seq<char>| #[trigger]
        peer_has(entries, i, id) && shows(rows_of(entries)[j], entries[i].files[id]);
    let hash = rows_of(entries)[j].hash;
    assert(hash == id);
    let first = first_peer(entries, hash, 0);
    lemma_first_peer(entries, hash, 0);
    assert(peer_has(entries, i, hash));
    assert(peer_has(entries, first, hash));
    law_first_peer_is_asked(entries, first, hash);
}

spec fn first_peer(entries: Seq<FileEntryView>, hash: Seq<char>, from: int) -> int
    decreases entries.len() - from,
{
    if from >= entries.len() || entries[from].files.contains_key(hash) {
        from
    } else {
        first_peer(entries, hash, from + 1)
    }
}

proof fn lemma_first_peer(entries: Seq<FileEntryView>, hash: Seq<char>, from: int)
    requires
        0 <= from <= entries.len(),
    ensures
        from <= first_peer(entries, hash, from) <= entries.len(),
        forall|i: int|
            from <= i < first_peer(entries, hash, from) ==> !(
            #[trigger] entries[i]).files.contains_key(hash),
        first_peer(entries, hash, from) < entries.len() ==> entries[first_peer(
            entries,
            hash,
            from,
        )].files.contains_key(hash),
    decreases entries.len() - from,
{
    if from < entries.len() && !entries[from].files.contains_key(hash) {
        lemma_first_peer(entries, hash, from + 1);
    }
}

/// The file that is found is that of the first peer that has one under the identifier.
pub proof fn law_first_peer_is_asked(entries: Seq<FileEntryView>, peer: int, hash: Seq<char>)
    requires
        peer_has(entries, peer, hash),
        forall|i: int| 0 <= i < peer ==> !(#[trigger] entries[i]).files.contains_key(hash),
    ensures
        found_file(entries, hash) == Some(entries[peer].files[hash]),
    decreases entries.len(),
{
    if peer > 0 {
        let rest = entries.drop_first();
        assert(!entries[0].files.contains_key(hash));
        assert(rest[peer - 1] == entries[peer]);
        assert forall|i: int| 0 <= i < peer - 1 implies !(#[trigger] rest[i]).files.contains_key(
            hash,
        ) by {
            assert(rest[i] == entries[i + 1]);
        }
        law_first_peer_is_asked(rest, peer - 1, hash);
    }
}

/// The URL of a file begins with the scheme, names the address behind it and then the route for
/// shared files, and ends with the name of the file.
pub proof fn law_destination(address: Seq<char>, name: Seq<char>)
    ensures
        ({
            let url = destination_of(address, name);
            let host_end = 7 + address.len() as int;
            &&& url.len() == 15 + address.len() + name.len()
            &&& url.take(7) == "http://"@
            &&& url.subrange(7, host_end) == address
            &&& url.subrange(host_end, host_end + 8) == "/static/"@
            &&& url.skip(host_end + 8) == name
        }),
{
    reveal_strlit("http://");
    reveal_strlit("/static/");
    let url = destination_of(address, name);
    let host_end = 7 + address.len() as int;
    assert(url.take(7) =~= "http://"@);
    assert(url.subrange(7, host_end) =~= address);
    assert(url.subrange(host_end, host_end + 8) =~= "/static/"@);
    assert(url.skip(host_end + 8) =~= name);
}

} // verus!
