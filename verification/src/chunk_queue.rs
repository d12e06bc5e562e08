use std::collections::{HashSet, VecDeque};

use vstd::prelude::*;

use crate::chunk_set::{chunk_key, chunk_key_of, lemma_chunk_key_injective};
use crate::chunks::ChunkCoord;

verus! {

broadcast use vstd::std_specs::hash::group_hash_axioms;

/// The queue `q` after an `enqueue` of `chunk`: appended unless already
/// present.
pub open spec fn enqueued(q: Seq<ChunkCoord>, chunk: ChunkCoord) -> Seq<ChunkCoord> {
    if q.contains(chunk) {
        q
    } else {
        q.push(chunk)
    }
}

/// Enqueueing is idempotent: a second `enqueue` of the same chunk changes
/// nothing.
pub proof fn lemma_enqueue_idempotent(q: Seq<ChunkCoord>, chunk: ChunkCoord)
    ensures
        enqueued(enqueued(q, chunk), chunk) == enqueued(q, chunk),
{
    if !q.contains(chunk) {
        assert(q.push(chunk)[q.len() as int] == chunk);
    }
}

/// First in, first out: a chunk enqueued on a queue is popped only after
/// everything queued before it, and an enqueued chunk is always present.
pub proof fn lemma_enqueue_fifo(q: Seq<ChunkCoord>, chunk: ChunkCoord)
    ensures
        enqueued(q, chunk).take(q.len() as int) == q,
        enqueued(q, chunk).contains(chunk),
{
    assert(enqueued(q, chunk).take(q.len() as int) =~= q);
    if !q.contains(chunk) {
        assert(q.push(chunk)[q.len() as int] == chunk);
    }
}

/// FIFO queue of chunk coordinates waiting to be generated, with an O(1)
/// membership set. Both structures are kept in sync by every method, so the
/// queue never holds a chunk twice.
pub struct ChunkQueue {
    queue: VecDeque<ChunkCoord>,
    queued: HashSet<u128>,
}

impl View for ChunkQueue {
    type V = Seq<ChunkCoord>;

    closed spec fn view(&self) -> Seq<ChunkCoord> {
        self.queue@
    }
}

impl ChunkQueue {
    /// The membership set holds the key of exactly the queued chunks, and
    /// no chunk is queued twice.
    #[verifier::type_invariant]
    closed spec fn in_sync(self) -> bool {
        &&& self.queue@.no_duplicates()
        &&& forall|c: ChunkCoord| #[trigger] self.queued@.contains(chunk_key(c)) <==> self.queue@.contains(c)
    }

    /// An empty queue.
    pub fn new() -> (q: Self)
        ensures
            q@ == Seq::<ChunkCoord>::empty(),
            q@.no_duplicates(),
    {
        ChunkQueue { queue: VecDeque::new(), queued: HashSet::new() }
    }

    /// Moves the contents out of `self`, leaving an empty queue behind.
    fn take_parts(&mut self) -> (parts: (VecDeque<ChunkCoord>, HashSet<u128>))
        ensures
            parts.0@ == old(self)@,
            parts.0@.no_duplicates(),
            forall|c: ChunkCoord| #[trigger] parts.1@.contains(chunk_key(c)) <==> parts.0@.contains(c),
            final(self)@ == Seq::<ChunkCoord>::empty(),
    {
        let mut this = ChunkQueue::new();
        std::mem::swap(&mut this, self);
        proof {
            use_type_invariant(&this);
        }
        let ChunkQueue { queue, queued } = this;
        (queue, queued)
    }

    /// Push `chunk` unless it is already queued. O(1) duplicate check.
    pub fn enqueue(&mut self, chunk: ChunkCoord)
        ensures
            final(self)@ == enqueued(old(self)@, chunk),
            final(self)@.no_duplicates(),
    {
        let (mut queue, mut queued) = self.take_parts();
        let k = chunk_key_of(chunk);
        let ghost old_queued = queued@;
        let ghost old_queue = queue@;
        let fresh = queued.insert(k);
        if fresh {
            queue.push_back(chunk);
            proof {
                assert(!old_queue.contains(chunk));
                assert forall|c: ChunkCoord| #[trigger] queued@.contains(chunk_key(c)) <==> queue@.contains(c) by {
                    lemma_chunk_key_injective(c, chunk);
                    if queue@.contains(c) && c != chunk {
                        let i = choose|i: int| 0 <= i < queue@.len() && queue@[i] == c;
                        assert(old_queue[i] == c);
                    }
                    if old_queue.contains(c) {
                        let i = choose|i: int| 0 <= i < old_queue.len() && old_queue[i] == c;
                        assert(queue@[i] == c);
                    }
                    if c == chunk {
                        assert(queue@[old_queue.len() as int] == c);
                    }
                }
                assert(queue@.no_duplicates());
            }
        } else {
            proof {
                assert(queued@ =~= old_queued);
            }
        }
        *self = ChunkQueue { queue, queued };
    }

    /// Remove and return the oldest queued chunk, if any.
    pub fn pop_front(&mut self) -> (r: Option<ChunkCoord>)
        ensures
            match r {
                Some(c) => old(self)@.len() > 0 && c == old(self)@[0] && final(self)@ == old(self)@.drop_first(),
                None => old(self)@.len() == 0 && final(self)@ == old(self)@,
            },
            final(self)@.no_duplicates(),
    {
        let (mut queue, mut queued) = self.take_parts();
        let ghost old_queue = queue@;
        let popped = queue.pop_front();
        match popped {
            Some(chunk) => {
                let k = chunk_key_of(chunk);
                queued.remove(&k);
                proof {
                    assert(queue@ =~= old_queue.drop_first());
                    assert forall|c: ChunkCoord| #[trigger] queued@.contains(chunk_key(c)) <==> queue@.contains(c) by {
                        lemma_chunk_key_injective(c, chunk);
                        if queue@.contains(c) {
                            let i = choose|i: int| 0 <= i < queue@.len() && queue@[i] == c;
                            assert(old_queue[i + 1] == c);
                            assert(old_queue.contains(c));
                            if c == chunk {
                                assert(old_queue[0] == old_queue[i + 1]);
                            }
                        }
                        if old_queue.contains(c) && c != chunk {
                            let i = choose|i: int| 0 <= i < old_queue.len() && old_queue[i] == c;
                            assert(i != 0);
                            assert(queue@[i - 1] == c);
                        }
                    }
                }
                *self = ChunkQueue { queue, queued };
                Some(chunk)
            },
            None => {
                *self = ChunkQueue { queue, queued };
                None
            },
        }
    }

    /// The oldest queued chunk, if any.
    pub fn front(&self) -> (r: Option<ChunkCoord>)
        ensures
            r == if self@.len() > 0 {
                Some(self@[0])
            } else {
                None::<ChunkCoord>
            },
    {
        if self.queue.len() > 0 {
            Some(self.queue[0])
        } else {
            None
        }
    }

    pub fn is_empty(&self) -> (r: bool)
        ensures
            r == (self@.len() == 0),
    {
        self.queue.len() == 0
    }

    pub fn len(&self) -> (r: usize)
        ensures
            r == self@.len(),
    {
        self.queue.len()
    }

    /// Drain the first `n` entries (oldest first) and remove them from the
    /// queued set.
    pub fn drain_front(&mut self, n: usize) -> (chunks: Vec<ChunkCoord>)
        requires
            n <= old(self)@.len(),
        ensures
            chunks@ == old(self)@.take(n as int),
            final(self)@ == old(self)@.skip(n as int),
            final(self)@.no_duplicates(),
    {
        proof {
            use_type_invariant(&*self);
        }
        let mut chunks: Vec<ChunkCoord> = Vec::new();
        let mut i: usize = 0;
        while i < n
            invariant
                i <= n,
                n <= old(self)@.len(),
                chunks@ == old(self)@.take(i as int),
                self@ == old(self)@.skip(i as int),
                self@.no_duplicates(),
            decreases n - i,
        {
            let c = self.pop_front();
            match c {
                Some(c) => {
                    chunks.push(c);
                },
                None => {},
            }
            proof {
                assert(chunks@ =~= old(self)@.take(i + 1));
                assert(self@ =~= old(self)@.skip(i + 1));
            }
            i = i + 1;
        }
        chunks
    }

    /// Remove every queued chunk.
    pub fn clear(&mut self)
        ensures
            final(self)@ == Seq::<ChunkCoord>::empty(),
            final(self)@.no_duplicates(),
    {
        *self = ChunkQueue::new();
    }
}

} // verus!
