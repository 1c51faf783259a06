//! Where the pieces of a file go, and why a file that is fetched in pieces comes out whole.

use vstd::prelude::*;

use crate::onion_client::{
    is_job_for, law_range_reads_back, names_range, piece_end, piece_start, ByteRange, PlanView,
    WorkerJob, NUM_WORKERS,
};

verus! {

/// The pieces of a file follow each other without a gap, none is empty, and together they are the
/// whole file.
pub proof fn law_pieces_follow_each_other(total: nat)
    requires
        total >= NUM_WORKERS,
    ensures
        piece_start(total, 0) == 0,
        piece_end(total, (NUM_WORKERS - 1) as nat) == total,
        forall|worker: nat|
            #![trigger piece_start(total, worker)]
            worker < NUM_WORKERS ==> piece_start(total, worker) < piece_end(total, worker),
        forall|worker: nat|
            #![trigger piece_end(total, worker)]
            worker + 1 < NUM_WORKERS ==> piece_end(total, worker) == piece_start(
                total,
                (worker + 1) as nat,
            ),
{
    let chunk = total / NUM_WORKERS as nat;
    assert forall|worker: nat|
        #![trigger piece_start(total, worker)]
        worker < NUM_WORKERS implies piece_start(total, worker) < piece_end(total, worker) by {
        assert(worker * chunk + chunk == (worker + 1) * chunk && worker * chunk + chunk <= total)
            by (nonlinear_arith)
            requires
                worker < 4,
                chunk == total / 4,
        ;
    }
    assert(0 * chunk == 0) by (nonlinear_arith);
}

/// Every byte of a file lies in exactly one piece.
pub proof fn law_every_byte_in_one_piece(total: nat, at: nat)
    requires
        total >= NUM_WORKERS,
        at < total,
    ensures
        exists|worker: nat|
            worker < NUM_WORKERS && #[trigger] piece_start(total, worker) <= at < piece_end(
                total,
                worker,
            ),
        forall|v: nat, w: nat|
            #![trigger piece_start(total, v), piece_start(total, w)]
            v < NUM_WORKERS && w < NUM_WORKERS && piece_start(total, v) <= at < piece_end(total, v)
                && piece_start(total, w) <= at < piece_end(total, w) ==> v == w,
{
    law_pieces_follow_each_other(total);
    let chunk = total / NUM_WORKERS as nat;
    let s0 = piece_start(total, 0);
    let s1 = piece_start(total, 1);
    let s2 = piece_start(total, 2);
    let s3 = piece_start(total, 3);
    assert(s1 == chunk && s2 == 2 * chunk && s3 == 3 * chunk) by (nonlinear_arith)
        requires
            s1 == 1 * chunk,
            s2 == 2 * chunk,
            s3 == 3 * chunk,
    ;
    let owner: nat = if at < s1 {
        0
    } else if at < s2 {
        1
    } else if at < s3 {
        2
    } else {
        3
    };
    assert(piece_start(total, owner) <= at < piece_end(total, owner));
    assert forall|v: nat, w: nat|
        #![trigger piece_start(total, v), piece_start(total, w)]
        v < NUM_WORKERS && w < NUM_WORKERS && piece_start(total, v) <= at < piece_end(total, v)
            && piece_start(total, w) <= at < piece_end(total, w) implies v == w by {
        assert(v == 0 || v == 1 || v == 2 || v == 3);
        assert(w == 0 || w == 1 || w == 2 || w == 3);
    }
}

/// Some bytes written at an offset.
pub struct Write {
    pub offset: int,
    pub data: Seq<u8>,
}

/// Whether a write touches the byte `at`.
pub open spec fn touches(write: Write, at: int) -> bool {
    write.offset <= at < write.offset + write.data.len()
}

/// Whether any of `writes` touches the byte `at`.
pub open spec fn any_touches(writes: Seq<Write>, at: int) -> bool {
    exists|i: int| 0 <= i < writes.len() && touches(#[trigger] writes[i], at)
}

/// What a file holds after `writes`, at the offsets that were written.
pub open spec fn written(writes: Seq<Write>) -> Map<int, u8>
    decreases writes.len(),
{
    if writes.len() == 0 {
        Map::empty()
    } else {
        let before = written(writes.drop_last());
        let last = writes.last();
        Map::new(
            |at: int| before.contains_key(at) || touches(last, at),
            |at: int|
                if touches(last, at) {
                    last.data[at - last.offset]
                } else {
                    before[at]
                },
        )
    }
}

/// A file that holds `content`.
pub open spec fn whole_file(content: Seq<u8>) -> Map<int, u8> {
    Map::new(|at: int| 0 <= at < content.len(), |at: int| content[at])
}

/// Whether a write puts a part of `content` where it belongs.
pub open spec fn is_faithful(write: Write, content: Seq<u8>) -> bool {
    &&& 0 <= write.offset
    &&& write.offset + write.data.len() <= content.len()
    &&& write.data == content.subrange(write.offset, write.offset + write.data.len())
}

/// Faithful writes leave nothing in a file that does not belong there, whatever their order.
proof fn lemma_faithful_writes(writes: Seq<Write>, content: Seq<u8>)
    requires
        forall|i: int| 0 <= i < writes.len() ==> is_faithful(#[trigger] writes[i], content),
    ensures
        forall|at: int| #[trigger]
            written(writes).contains_key(at) ==> 0 <= at < content.len() && written(writes)[at]
                == content[at],
        forall|at: int| #[trigger] any_touches(writes, at) ==> written(writes).contains_key(at),
    decreases writes.len(),
{
    if writes.len() > 0 {
        let before = writes.drop_last();
        assert forall|i: int| 0 <= i < before.len() implies is_faithful(
            #[trigger] before[i],
            content,
        ) by {
            assert(before[i] == writes[i]);
        }
        lemma_faithful_writes(before, content);
        let last = writes.last();
        assert(is_faithful(writes[writes.len() - 1], content));
        assert forall|at: int| #[trigger] written(writes).contains_key(at) implies 0 <= at
            < content.len() && written(writes)[at] == content[at] by {
            if touches(last, at) {
                let part = content.subrange(last.offset, last.offset + last.data.len());
                assert(part[at - last.offset] == content[at]);
            } else {
                assert(written(before).contains_key(at));
            }
        }
        assert forall|at: int| #[trigger] any_touches(writes, at) implies written(
            writes,
        ).contains_key(at) by {
            let i = choose|i: int| 0 <= i < writes.len() && touches(#[trigger] writes[i], at);
            if i < before.len() {
                assert(before[i] == writes[i]);
                assert(any_touches(before, at));
            }
        }
    }
}

/// All of `frames` one behind the other.
pub open spec fn joined(frames: Seq<Seq<u8>>) -> Seq<u8>
    decreases frames.len(),
{
    if frames.len() == 0 {
        Seq::empty()
    } else {
        joined(frames.drop_last()) + frames.last()
    }
}

/// The writes of a worker that starts at `start` and receives `frames`: each frame goes behind
/// the one before it.
pub open spec fn worker_writes(start: int, frames: Seq<Seq<u8>>) -> Seq<Write>
    decreases frames.len(),
{
    if frames.len() == 0 {
        Seq::empty()
    } else {
        let before = frames.drop_last();
        worker_writes(start, before).push(
            Write { offset: start + joined(before).len(), data: frames.last() },
        )
    }
}

/// What a worker has received so far.
pub struct PieceView {
    /// Where its piece begins.
    pub start: u64,
    /// What it received, in this order.
    pub frames: Seq<Seq<u8>>,
}

/// Says where the bytes that a worker receives go.
pub struct PieceWriter {
    start: u64,
    offset: u64,
    frames: Ghost<Seq<Seq<u8>>>,
}

impl View for PieceWriter {
    type V = PieceView;

    closed spec fn view(&self) -> PieceView {
        PieceView { start: self.start, frames: self.frames@ }
    }
}

impl PieceWriter {
    #[verifier::type_invariant]
    spec fn offset_is_behind_frames(&self) -> bool {
        self.offset == self.start + joined(self.frames@).len()
    }

    /// A writer at the beginning of a piece.
    pub fn new(range: ByteRange) -> (writer: Self)
        ensures
            writer@ == (PieceView { start: range.first, frames: Seq::empty() }),
    {
        PieceWriter { start: range.first, offset: range.first, frames: Ghost(Seq::empty()) }
    }

    /// Where the next bytes go.
    pub fn position(&self) -> (offset: u64)
        ensures
            offset == self@.start + joined(self@.frames).len(),
    {
        proof {
            use_type_invariant(self);
        }
        self.offset
    }

    /// Takes a frame and says where it goes: behind those that were taken before.
    pub fn take(&mut self, frame: &[u8]) -> (offset: u64)
        requires
            old(self)@.start + joined(old(self)@.frames).len() + frame@.len() <= u64::MAX,
        ensures
            offset == old(self)@.start + joined(old(self)@.frames).len(),
            final(self)@ == (PieceView {
                start: old(self)@.start,
                frames: old(self)@.frames.push(frame@),
            }),
            worker_writes(final(self)@.start as int, final(self)@.frames) == worker_writes(
                old(self)@.start as int,
                old(self)@.frames,
            ).push(Write { offset: offset as int, data: frame@ }),
    {
        proof {
            use_type_invariant(&*self);
        }
        let offset: u64 = self.offset;
        let ghost before = self.frames@;
        assert(before.push(frame@).drop_last() =~= before);
        let next: PieceWriter = PieceWriter {
            start: self.start,
            offset: offset + frame.len() as u64,
            frames: Ghost(before.push(frame@)),
        };
        *self = next;
        offset
    }
}

/// The writes of a worker that receives a part of `content` in any number of frames are faithful,
/// and touch every byte of that part.
pub proof fn law_worker_writes(content: Seq<u8>, start: int, end: int, frames: Seq<Seq<u8>>)
    requires
        0 <= start <= end <= content.len(),
        joined(frames) == content.subrange(start, end),
    ensures
        forall|i: int|
            0 <= i < worker_writes(start, frames).len() ==> is_faithful(
                #[trigger] worker_writes(start, frames)[i],
                content,
            ),
        forall|at: int|
            start <= at < end ==> #[trigger] any_touches(worker_writes(start, frames), at),
    decreases frames.len(),
{
    let writes = worker_writes(start, frames);
    assert(joined(frames).len() == end - start);
    if frames.len() > 0 {
        let before = frames.drop_last();
        let middle = start + joined(before).len();
        assert(joined(before) =~= joined(frames).take(joined(before).len() as int));
        assert(joined(before) =~= content.subrange(start, middle));
        law_worker_writes(content, start, middle, before);
        let earlier = worker_writes(start, before);
        let last = writes[writes.len() - 1];
        assert(last.data =~= joined(frames).skip(joined(before).len() as int));
        assert(last.data =~= content.subrange(middle, end));
        assert forall|i: int| 0 <= i < writes.len() implies is_faithful(
            #[trigger] writes[i],
            content,
        ) by {
            if i < earlier.len() {
                assert(writes[i] == earlier[i]);
            }
        }
        assert forall|at: int| start <= at < end implies #[trigger] any_touches(writes, at) by {
            if at < middle {
                assert(any_touches(earlier, at));
                let i = choose|i: int| 0 <= i < earlier.len() && touches(#[trigger] earlier[i], at);
                assert(writes[i] == earlier[i]);
            } else {
                assert(touches(last, at));
            }
        }
    }
}

/// Whether the `worker`th worker, on receiving `frames[worker]`, makes the write.
pub open spec fn is_write_of(
    worker: nat,
    write: Write,
    total: nat,
    frames: Seq<Seq<Seq<u8>>>,
) -> bool {
    worker < NUM_WORKERS && worker_writes(
        piece_start(total, worker) as int,
        frames[worker as int],
    ).contains(write)
}

/// Whether `writes` are the writes of all workers, in whatever order they were made.
pub open spec fn are_writes_of_all(
    writes: Seq<Write>,
    total: nat,
    frames: Seq<Seq<Seq<u8>>>,
) -> bool {
    &&& forall|i: int|
        #![trigger writes[i]]
        0 <= i < writes.len() ==> exists|worker: nat| is_write_of(worker, writes[i], total, frames)
    &&& forall|worker: nat, write: Write| #[trigger]
        is_write_of(worker, write, total, frames) ==> writes.contains(write)
}

/// A file comes out whole: when every worker receives its piece of `content`, in any number of
/// frames, then after all their writes, in any order, the file holds `content` and nothing else.
pub proof fn law_download_is_whole(
    content: Seq<u8>,
    frames: Seq<Seq<Seq<u8>>>,
    writes: Seq<Write>,
)
    requires
        content.len() >= NUM_WORKERS,
        frames.len() == NUM_WORKERS,
        forall|worker: nat|
            worker < NUM_WORKERS ==> joined(#[trigger] frames[worker as int]) == content.subrange(
                piece_start(content.len(), worker) as int,
                piece_end(content.len(), worker) as int,
            ),
        are_writes_of_all(writes, content.len(), frames),
    ensures
        written(writes) == whole_file(content),
{
    let total = content.len();
    law_pieces_follow_each_other(total);
    assert forall|worker: nat| worker < NUM_WORKERS implies #[trigger] piece_end(total, worker)
        <= total by {
        let chunk = total / NUM_WORKERS as nat;
        assert((worker + 1) * chunk <= total) by (nonlinear_arith)
            requires
                worker < 4,
                chunk == total / 4,
        ;
    }
    assert forall|i: int| 0 <= i < writes.len() implies is_faithful(
        #[trigger] writes[i],
        content,
    ) by {
        let worker = choose|worker: nat| is_write_of(worker, writes[i], total, frames);
        let start = piece_start(total, worker) as int;
        let own = worker_writes(start, frames[worker as int]);
        law_worker_writes(
            content,
            start,
            piece_end(total, worker) as int,
            frames[worker as int],
        );
        let k = own.index_of(writes[i]);
        assert(is_faithful(own[k], content));
    }
    lemma_faithful_writes(writes, content);
    assert forall|at: int| 0 <= at < total implies #[trigger] written(writes).contains_key(at) by {
        law_every_byte_in_one_piece(total, at as nat);
        let worker = choose|worker: nat|
            worker < NUM_WORKERS && #[trigger] piece_start(total, worker) <= at < piece_end(
                total,
                worker,
            );
        let start = piece_start(total, worker) as int;
        let own = worker_writes(start, frames[worker as int]);
        law_worker_writes(
            content,
            start,
            piece_end(total, worker) as int,
            frames[worker as int],
        );
        assert(any_touches(own, at));
        let k = choose|k: int| 0 <= k < own.len() && touches(#[trigger] own[k], at);
        assert(is_write_of(worker, own[k], total, frames));
        let i = writes.index_of(own[k]);
        assert(touches(writes[i], at));
        assert(any_touches(writes, at));
    }
    assert(written(writes) =~= whole_file(content));
}

/// All pieces but the last are equally long, a quarter of the file, and the last takes what is
/// left.
pub proof fn law_pieces_are_equal(total: nat)
    ensures
        NUM_WORKERS == 4,
        piece_end(total, 0) - piece_start(total, 0) == total / 4,
        piece_end(total, 1) - piece_start(total, 1) == total / 4,
        piece_end(total, 2) - piece_start(total, 2) == total / 4,
        piece_end(total, 3) - piece_start(total, 3) == total / 4 + total % 4,
{
    let chunk = total / 4;
    assert(0 * chunk == 0 && 1 * chunk == chunk && 2 * chunk == chunk + chunk && 3 * chunk == chunk
        + chunk + chunk && 4 * chunk + total % 4 == total) by (nonlinear_arith)
        requires
            chunk == total / 4,
    ;
}

/// Frames are joined in the order in which they came.
pub proof fn law_frames_are_joined(frames: Seq<Seq<u8>>, frame: Seq<u8>)
    ensures
        joined(Seq::empty()) == Seq::<u8>::empty(),
        joined(frames.push(frame)) == joined(frames) + frame,
{
    assert(frames.push(frame).drop_last() =~= frames);
}

/// Whether `bytes` are what a peer that has `content` answers to a request with the `Range` header
/// `header`: the bytes that the header asks for.
pub open spec fn answers(content: Seq<u8>, header: Seq<char>, bytes: Seq<u8>) -> bool {
    exists|first: u64, last: u64| #[trigger]
        names_range(header, first, last) && first <= last < content.len() && bytes
            == content.subrange(first as int, last + 1)
}

/// The request of a worker asks for its own piece: whatever a peer answers to it, if it is what
/// was asked for, is that piece of the file.
pub proof fn law_request_asks_for_the_piece(
    content: Seq<u8>,
    plan: PlanView,
    job: WorkerJob,
    worker: nat,
    bytes: Seq<u8>,
)
    requires
        content.len() >= NUM_WORKERS,
        worker < NUM_WORKERS,
        is_job_for(job, plan, content.len(), worker),
    ensures
        job.request.range is Some,
        job.request.target@ == plan.target,
        job.request.host@ == plan.host,
        job.range.first == piece_start(content.len(), worker),
        job.range.last + 1 == piece_end(content.len(), worker),
        answers(content, job.request.range->0@, bytes) <==> bytes == content.subrange(
            piece_start(content.len(), worker) as int,
            piece_end(content.len(), worker) as int,
        ),
{
    law_pieces_follow_each_other(content.len());
    law_pieces_are_equal(content.len());
    law_range_reads_back(job.range);
    let total = content.len();
    let chunk = total / 4;
    assert(worker == 0 || worker == 1 || worker == 2 || worker == 3);
    assert(piece_start(total, worker) < piece_end(total, worker));
    assert(piece_end(total, worker) <= total) by {
        assert((worker + 1) * chunk <= total) by (nonlinear_arith)
            requires
                worker < 4,
                chunk == total / 4,
        ;
    }
    let header = job.request.range->0@;
    assert(names_range(header, job.range.first, job.range.last));
}

/// A file that a peer serves is fetched whole: when every worker sends its request and receives
/// what it asked for, in any number of frames, then after all their writes, in any order, the file
/// holds what the peer's holds and nothing else.
pub proof fn law_requested_file_comes_out_whole(
    content: Seq<u8>,
    plan: PlanView,
    jobs: Seq<WorkerJob>,
    frames: Seq<Seq<Seq<u8>>>,
    writes: Seq<Write>,
)
    requires
        content.len() >= NUM_WORKERS,
        jobs.len() == NUM_WORKERS,
        frames.len() == NUM_WORKERS,
        forall|i: int|
            0 <= i < NUM_WORKERS ==> is_job_for(
                #[trigger] jobs[i],
                plan,
                content.len(),
                i as nat,
            ),
        forall|i: int|
            0 <= i < NUM_WORKERS ==> answers(
                content,
                (#[trigger] jobs[i]).request.range->0@,
                joined(frames[i]),
            ),
        are_writes_of_all(writes, content.len(), frames),
    ensures
        written(writes) == whole_file(content),
{
    assert forall|worker: nat| worker < NUM_WORKERS implies joined(
        #[trigger] frames[worker as int],
    ) == content.subrange(
        piece_start(content.len(), worker) as int,
        piece_end(content.len(), worker) as int,
    ) by {
        law_request_asks_for_the_piece(
            content,
            plan,
            jobs[worker as int],
            worker,
            joined(frames[worker as int]),
        );
    }
    law_download_is_whole(content, frames, writes);
}

} // verus!
