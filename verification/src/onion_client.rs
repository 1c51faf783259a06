//! Fetching a file from a peer: what to ask for, and where each piece goes.

use vstd::prelude::*;
use vstd::utf8::encode_utf8;

use crate::file_watcher::alphanumeric;
use crate::text::{
    after_last, chars_of, decimal, decimal_text, law_behind_the_last_mark, law_decimal,
    parse_number, parsed_number, reads_as, start_after_last, text_of,
};

verus! {

/// How many pieces of a file are fetched at the same time.
pub const NUM_WORKERS: u64 = 4;

/// The port of a peer that names none.
pub const DEFAULT_PORT: u16 = 80;

/// The longest URL that can be parsed, in bytes.
pub const MAX_URL_LEN: usize = 65_534;

/// The parts of a URL that a download needs.
#[derive(Debug)]
pub struct UriParts {
    pub host: Option<String>,
    pub port: Option<u16>,
    /// The path and the query.
    pub target: Option<String>,
}

/// A `String` that may be absent, as mathematical values.
pub open spec fn optional_string(text: Option<String>) -> Option<Seq<char>> {
    match text {
        Some(text) => Some(text@),
        None => None,
    }
}

/// The host, the port and the path with its query that a URL is parsed to, or the complaint about
/// it.
pub uninterp spec fn parsed_uri(url: Seq<char>) -> Result<
    (Option<Seq<char>>, Option<u16>, Option<Seq<char>>),
    Seq<char>,
>;

/// The characters of a plain host name.
pub open spec fn host_char(c: char) -> bool {
    alphanumeric(c) || c == '-' || c == '.'
}

/// The characters that may stand for themselves in the path of a URL: all but control characters,
/// the space and ``# < > ? ` ``.
pub open spec fn path_char(c: char) -> bool {
    let code = c as int;
    ||| code == 0x21 || code == 0x22
    ||| 0x24 <= code <= 0x3b
    ||| code == 0x3d
    ||| 0x40 <= code <= 0x5f
    ||| 0x61 <= code <= 0x7e
    ||| 0x80 <= code
}

/// Whether `url` is the HTTP URL of `path` on `host`, with no port, no query and no characters
/// that have a meaning of their own.
pub open spec fn plain_url(url: Seq<char>, host: Seq<char>, path: Seq<char>) -> bool {
    &&& url == "http://"@ + host + path
    &&& host.len() > 0
    &&& forall|i: int| 0 <= i < host.len() ==> host_char(#[trigger] host[i])
    &&& path.len() > 0 && path[0] == '/'
    &&& forall|i: int| 0 <= i < path.len() ==> path_char(#[trigger] path[i])
    &&& encode_utf8(url).len() <= MAX_URL_LEN
}

/// Parsing a text as `hyper::Uri` and reading `host`, `port_u16` and `path_and_query` of the
/// result depends on the text alone. A plain HTTP URL is accepted; its host and its path come out
/// as they are, and no port.
#[verifier::external_body]
fn split_uri(url: &str) -> (parts: Result<UriParts, String>)
    ensures
        match parts {
            Ok(parts) => parsed_uri(url@) == Ok::<_, Seq<char>>(
                (optional_string(parts.host), parts.port, optional_string(parts.target)),
            ),
            Err(complaint) => parsed_uri(url@) == Err::<
                (Option<Seq<char>>, Option<u16>, Option<Seq<char>>),
                _,
            >(complaint@),
        },
        forall|host: Seq<char>, path: Seq<char>| #[trigger]
            plain_url(url@, host, path) ==> (parts matches Ok(parts) && optional_string(parts.host)
                == Some(host) && parts.port is None && optional_string(parts.target) == Some(
                path,
            )),
{
    match url.parse::<hyper::Uri>() {
        Ok(uri) => Ok(UriParts {
            host: uri.host().map(str::to_string),
            port: uri.port_u16(),
            target: uri.path_and_query().map(|path| path.as_str().to_string()),
        }),
        Err(complaint) => Err(complaint.to_string()),
    }
}

/// What a download asks for, and under which name it is stored.
#[derive(Debug)]
pub struct DownloadPlan {
    pub host: String,
    pub port: u16,
    pub target: String,
    pub file_name: String,
}

/// A `DownloadPlan` as mathematical values.
pub struct PlanView {
    pub host: Seq<char>,
    pub port: u16,
    pub target: Seq<char>,
    pub file_name: Seq<char>,
}

impl View for DownloadPlan {
    type V = PlanView;

    open spec fn view(&self) -> PlanView {
        PlanView {
            host: self.host@,
            port: self.port,
            target: self.target@,
            file_name: self.file_name@,
        }
    }
}

/// The name under which a download is stored: what is behind the last slash of its target.
pub open spec fn stored_name(target: Seq<char>) -> Seq<char> {
    let tail = after_last(target, '/');
    if tail.len() > 0 {
        tail
    } else {
        "downloaded_file"@
    }
}

/// The plan for a URL with these parts. Without a port the default is used, without a path the
/// root.
pub open spec fn plan_for(
    host: Seq<char>,
    port: Option<u16>,
    target: Option<Seq<char>>,
) -> PlanView {
    let asked = match target {
        Some(text) => text,
        None => "/"@,
    };
    PlanView {
        host,
        port: match port {
            Some(port) => port,
            None => DEFAULT_PORT,
        },
        target: asked,
        file_name: stored_name(asked),
    }
}

/// The name under which a download is stored.
pub fn download_file_name(target: &str) -> (name: String)
    ensures
        name@ == stored_name(target@),
{
    let chars: Vec<char> = chars_of(target);
    let len: usize = chars.len();
    let from: usize = start_after_last(&chars, len, '/');
    assert(chars@.take(len as int) == chars@);
    if from < len {
        text_of(&chars, from, len)
    } else {
        "downloaded_file".to_string()
    }
}

/// Why there is no plan for a URL.
#[derive(Debug)]
pub enum UrlError {
    /// It is no URL, for the given reason.
    Invalid { complaint: String },
    /// It names no host.
    NoHost,
}

/// Makes a plan out of the parts of a URL that names a host.
pub fn plan_from_parts(parts: UriParts) -> (plan: DownloadPlan)
    requires
        parts.host is Some,
    ensures
        plan@ == plan_for(parts.host->0@, parts.port, optional_string(parts.target)),
        plan.host@ == parts.host->0@,
        parts.port is Some ==> plan.port == parts.port->0,
        parts.target is Some ==> plan.target@ == parts.target->0@,
        plan.file_name@ == stored_name(plan.target@),
{
    let host: String = parts.host.unwrap();
    let port: u16 = match parts.port {
        Some(port) => port,
        None => DEFAULT_PORT,
    };
    let target: String = match parts.target {
        Some(text) => text,
        None => "/".to_string(),
    };
    let file_name: String = download_file_name(target.as_str());
    DownloadPlan { host, port, target, file_name }
}

/// Makes a plan for fetching `url`.
///
/// For a plain URL there is always a plan: it asks the host, on the default port, for the path.
pub fn plan_download(url: &str) -> (plan: Result<DownloadPlan, UrlError>)
    ensures
        match parsed_uri(url@) {
            Ok((Some(host), port, target)) => plan matches Ok(plan) && plan@ == plan_for(
                host,
                port,
                target,
            ),
            Ok((None, _, _)) => plan matches Err(UrlError::NoHost),
            Err(text) => plan matches Err(UrlError::Invalid { complaint }) && complaint@ == text,
        },
        forall|host: Seq<char>, path: Seq<char>| #[trigger]
            plain_url(url@, host, path) ==> (plan matches Ok(plan) && plan@ == plan_for(
                host,
                None,
                Some(path),
            )),
{
    match split_uri(url) {
        Ok(parts) => {
            if parts.host.is_none() {
                Err(UrlError::NoHost)
            } else {
                Ok(plan_from_parts(parts))
            }
        },
        Err(complaint) => Err(UrlError::Invalid { complaint }),
    }
}

/// A request to a peer.
#[derive(Debug)]
pub struct PeerRequest {
    pub method: String,
    pub target: String,
    /// The value of the `Host` header.
    pub host: String,
    /// The value of the `Range` header.
    pub range: Option<String>,
}

/// The request for the size of a file.
pub fn size_request(plan: &DownloadPlan) -> (request: PeerRequest)
    ensures
        request.method@ == "HEAD"@,
        request.target@ == plan@.target,
        request.host@ == plan@.host,
        request.range is None,
{
    PeerRequest {
        method: "HEAD".to_string(),
        target: plan.target.clone(),
        host: plan.host.clone(),
        range: None,
    }
}

/// The request for all of a file in one answer.
pub fn file_request(host: &str, target: &str) -> (request: PeerRequest)
    ensures
        request.method@ == "GET"@,
        request.target@ == target@,
        request.host@ == host@,
        request.range is None,
{
    PeerRequest {
        method: "GET".to_string(),
        target: target.to_string(),
        host: host.to_string(),
        range: None,
    }
}

/// The size of a file according to the `Content-Length` header of an answer, if there is one that
/// spells a number.
pub open spec fn stated_size(header: Option<&[u8]>) -> Option<u64> {
    match header {
        Some(value) => parsed_number(value@),
        None => None,
    }
}

/// Reads the size of a file out of the `Content-Length` header of an answer.
pub fn content_length(header: Option<&[u8]>) -> (size: Option<u64>)
    ensures
        size == stated_size(header),
{
    match header {
        Some(value) => parse_number(value),
        None => None,
    }
}

/// The bytes of a file from `first` to `last`, both included.
#[derive(Debug, Clone, Copy, PartialEq, Eq, Structural)]
pub struct ByteRange {
    pub first: u64,
    pub last: u64,
}

/// The first byte of the `worker`th piece of a file of `total` bytes.
pub open spec fn piece_start(total: nat, worker: nat) -> nat {
    worker * (total / NUM_WORKERS as nat)
}

/// The byte behind the `worker`th piece of a file of `total` bytes: all pieces are equally long,
/// but the last one takes what is left.
pub open spec fn piece_end(total: nat, worker: nat) -> nat {
    if worker + 1 == NUM_WORKERS {
        total
    } else {
        piece_start(total, worker + 1)
    }
}

/// Divides a file of `total_size` bytes among the workers.
pub fn worker_ranges(total_size: u64) -> (ranges: Vec<ByteRange>)
    requires
        total_size >= NUM_WORKERS,
    ensures
        ranges@.len() == NUM_WORKERS,
        forall|i: int|
            0 <= i < NUM_WORKERS ==> (#[trigger] ranges@[i]).first == piece_start(
                total_size as nat,
                i as nat,
            ) && ranges@[i].last + 1 == piece_end(total_size as nat, i as nat),
{
    let chunk_size: u64 = total_size / NUM_WORKERS;
    let mut ranges: Vec<ByteRange> = Vec::new();
    let mut i: u64 = 0;
    while i < NUM_WORKERS
        invariant
            i <= NUM_WORKERS,
            ranges@.len() == i,
            chunk_size == total_size / NUM_WORKERS,
            chunk_size >= 1,
            total_size >= NUM_WORKERS,
            forall|j: int|
                0 <= j < i ==> (#[trigger] ranges@[j]).first == piece_start(
                    total_size as nat,
                    j as nat,
                ) && ranges@[j].last + 1 == piece_end(total_size as nat, j as nat),
        decreases NUM_WORKERS - i,
    {
        assert(0 <= i * chunk_size && i * chunk_size + chunk_size <= total_size && (i + 1)
            * chunk_size == i * chunk_size + chunk_size) by (nonlinear_arith)
            requires
                0 <= i < 4,
                chunk_size == total_size / 4,
        ;
        let first: u64 = i * chunk_size;
        let last: u64 = if i == NUM_WORKERS - 1 {
            total_size - 1
        } else {
            (i + 1) * chunk_size - 1
        };
        ranges.push(ByteRange { first, last });
        i = i + 1;
    }
    ranges
}

/// The value of the `Range` header for some bytes.
pub open spec fn range_value(range: ByteRange) -> Seq<char> {
    "bytes="@ + decimal(range.first as nat) + "-"@ + decimal(range.last as nat)
}

/// The request for some bytes of a file.
pub fn range_request(plan: &DownloadPlan, range: ByteRange) -> (request: PeerRequest)
    ensures
        request.method@ == "GET"@,
        request.target@ == plan@.target,
        request.host@ == plan@.host,
        request.range matches Some(value) && value@ == range_value(range),
        request.range matches Some(value) && names_range(value@, range.first, range.last),
{
    proof {
        law_range_reads_back(range);
    }
    let mut value: String = "bytes=".to_string();
    value.append(decimal_text(range.first).as_str());
    value.append("-");
    value.append(decimal_text(range.last).as_str());
    PeerRequest {
        method: "GET".to_string(),
        target: plan.target.clone(),
        host: plan.host.clone(),
        range: Some(value),
    }
}

/// What one worker fetches.
#[derive(Debug)]
pub struct WorkerJob {
    pub range: ByteRange,
    pub request: PeerRequest,
}

/// Why a file cannot be divided among the workers.
#[derive(Debug, Clone, Copy, PartialEq, Eq, Structural)]
pub enum SizeError {
    /// The peer did not say how large the file is.
    Missing,
    /// The file has fewer bytes than there are workers.
    TooSmall,
}

/// Whether a job fetches the `worker`th piece of a file of `total` bytes.
pub open spec fn is_job_for(job: WorkerJob, plan: PlanView, total: nat, worker: nat) -> bool {
    &&& job.range.first == piece_start(total, worker)
    &&& job.range.last + 1 == piece_end(total, worker)
    &&& job.request.method@ == "GET"@
    &&& job.request.target@ == plan.target
    &&& job.request.host@ == plan.host
    &&& job.request.range matches Some(value) && value@ == range_value(job.range)
}

/// Divides a file among the workers, given the `Content-Length` header of the peer's answer to the
/// request for its size.
pub fn plan_workers(plan: &DownloadPlan, header: Option<&[u8]>) -> (jobs: Result<
    Vec<WorkerJob>,
    SizeError,
>)
    ensures
        match (stated_size(header), jobs) {
            (Some(total), Ok(jobs)) => {
                &&& total >= NUM_WORKERS
                &&& jobs@.len() == NUM_WORKERS
                &&& forall|i: int|
                    0 <= i < NUM_WORKERS ==> is_job_for(
                        #[trigger] jobs@[i],
                        plan@,
                        total as nat,
                        i as nat,
                    )
            },
            (Some(total), Err(error)) => total < NUM_WORKERS && error is TooSmall,
            (None, Err(error)) => error is Missing,
            (None, Ok(_)) => false,
        },
{
    let total_size: u64 = match content_length(header) {
        Some(total_size) => total_size,
        None => return Err(SizeError::Missing),
    };
    if total_size < NUM_WORKERS {
        return Err(SizeError::TooSmall);
    }
    let ranges: Vec<ByteRange> = worker_ranges(total_size);
    let mut jobs: Vec<WorkerJob> = Vec::new();
    let mut i: usize = 0;
    while i < ranges.len()
        invariant
            i <= ranges@.len() == NUM_WORKERS,
            jobs@.len() == i,
            forall|j: int|
                0 <= j < NUM_WORKERS ==> (#[trigger] ranges@[j]).first == piece_start(
                    total_size as nat,
                    j as nat,
                ) && ranges@[j].last + 1 == piece_end(total_size as nat, j as nat),
            forall|j: int|
                0 <= j < i ==> is_job_for(
                    #[trigger] jobs@[j],
                    plan@,
                    total_size as nat,
                    j as nat,
                ),
        decreases ranges@.len() - i,
    {
        let range: ByteRange = ranges[i];
        jobs.push(WorkerJob { range, request: range_request(plan, range) });
        i = i + 1;
    }
    Ok(jobs)
}

/// Whether `header` is `bytes=` and two numbers with a `-` between them, which read as `first` and
/// `last`.
pub open spec fn spells_range(
    header: Seq<char>,
    a: Seq<char>,
    first: u64,
    b: Seq<char>,
    last: u64,
) -> bool {
    header == "bytes="@ + a + "-"@ + b && reads_as(a, first) && reads_as(b, last)
}

/// Whether `header` asks for the bytes from `first` to `last`.
pub open spec fn names_range(header: Seq<char>, first: u64, last: u64) -> bool {
    exists|a: Seq<char>, b: Seq<char>| spells_range(header, a, first, b, last)
}

proof fn lemma_one_way_to_split(
    header: Seq<char>,
    a: Seq<char>,
    first: u64,
    b: Seq<char>,
    last: u64,
    c: Seq<char>,
    other_first: u64,
    d: Seq<char>,
    other_last: u64,
)
    requires
        spells_range(header, a, first, b, last),
        spells_range(header, c, other_first, d, other_last),
    ensures
        first == other_first,
        last == other_last,
{
    reveal_strlit("bytes=");
    reveal_strlit("-");
    let dash_a = 6 + a.len() as int;
    let dash_c = 6 + c.len() as int;
    assert(header[dash_a] == '-' && header[dash_c] == '-');
    if a.len() < c.len() {
        assert(header[dash_a] == c[a.len() as int]);
    } else if c.len() < a.len() {
        assert(header[dash_c] == a[c.len() as int]);
    }
    assert(a =~= header.subrange(6, dash_a));
    assert(c =~= header.subrange(6, dash_c));
    assert(b =~= header.skip(dash_a + 1));
    assert(d =~= header.skip(dash_c + 1));
}

/// The `Range` header for some bytes asks for those bytes and for no others, wherever in a file
/// they are.
pub proof fn law_range_reads_back(range: ByteRange)
    ensures
        names_range(range_value(range), range.first, range.last),
        forall|first: u64, last: u64| #[trigger]
            names_range(range_value(range), first, last) ==> first == range.first && last
                == range.last,
{
    let header = range_value(range);
    let a = decimal(range.first as nat);
    let b = decimal(range.last as nat);
    law_decimal(range.first);
    law_decimal(range.last);
    assert(spells_range(header, a, range.first, b, range.last));
    assert forall|first: u64, last: u64| #[trigger] names_range(header, first, last) implies first
        == range.first && last == range.last by {
        let (c, d) = choose|c: Seq<char>, d: Seq<char>| spells_range(header, c, first, d, last);
        lemma_one_way_to_split(header, a, range.first, b, range.last, c, first, d, last);
    }
}

/// A peer that states a size in decimal is believed, whatever the size is; any other header is
/// taken for the number that it spells, if it spells one.
pub proof fn law_stated_size(header: &[u8], size: u64)
    ensures
        header@ == encode_utf8(decimal(size as nat)) ==> stated_size(Some(header)) == Some(size),
        stated_size(Some(header)) == parsed_number(header@),
        stated_size(None) is None,
{
    law_decimal(size);
}

/// A plan stands for what its fields hold, in full.
pub proof fn law_plan_is_its_fields(plan: DownloadPlan)
    ensures
        plan@.host == plan.host@,
        plan@.port == plan.port,
        plan@.target == plan.target@,
        plan@.file_name == plan.file_name@,
{
}

/// A part of a URL that is there stands for its characters, in full.
pub proof fn law_optional_string(text: String)
    ensures
        optional_string(Some(text)) == Some(text@),
        optional_string(None) is None,
{
}

/// A plan keeps what the URL says, and fills in the port for HTTP and the root where it says
/// nothing.
pub proof fn law_plan_keeps_the_url(host: Seq<char>, port: u16, target: Seq<char>)
    ensures
        ({
            let plan = plan_for(host, Some(port), Some(target));
            &&& plan.host == host
            &&& plan.port == port
            &&& plan.target == target
            &&& plan.file_name == stored_name(target)
        }),
        plan_for(host, None, Some(target)) == plan_for(host, Some(80), Some(target)),
        plan_for(host, Some(port), None) == plan_for(host, Some(port), Some(seq!['/'])),
        plan_for(host, None, None) == plan_for(host, Some(80), Some(seq!['/'])),
{
    reveal_strlit("/");
    assert("/"@ =~= seq!['/']);
}

/// A download is stored under the last part of its target, as it is, and under a name of its own
/// where that part is empty.
pub proof fn law_stored_name(directory: Seq<char>, name: Seq<char>)
    requires
        !name.contains('/'),
        name.len() > 0,
    ensures
        stored_name(directory.push('/') + name) == name,
        stored_name(name) == name,
        stored_name(directory.push('/')) == "downloaded_file"@,
        stored_name(Seq::empty()) == "downloaded_file"@,
{
    law_behind_the_last_mark(directory, '/', name);
    let nothing = Seq::<char>::empty();
    law_behind_the_last_mark(directory, '/', nothing);
    assert(directory.push('/') + nothing =~= directory.push('/'));
}

} // verus!
