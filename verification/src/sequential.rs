use vstd::prelude::*;
use crate::request::ItemWrite;
use crate::plan::CHUNK_SIZE;

verus! {

/// One request added to the pending ones: when they make a full batch, the batch is sent
/// and nothing stays pending; otherwise the request waits.
pub open spec fn batch_step(pending: Seq<ItemWrite>, request: ItemWrite) -> (
    Seq<ItemWrite>,
    Option<Seq<ItemWrite>>,
) {
    let p = pending.push(request);
    if p.len() == CHUNK_SIZE {
        (Seq::empty(), Some(p))
    } else {
        (p, None)
    }
}

/// The batches sent, and the requests left pending, after adding `s` one by one to an
/// empty batcher.
pub open spec fn batch_run(s: Seq<ItemWrite>) -> (Seq<Seq<ItemWrite>>, Seq<ItemWrite>)
    decreases s.len(),
{
    if s.len() == 0 {
        (Seq::empty(), Seq::empty())
    } else {
        let (sent, pending) = batch_run(s.drop_last());
        let (next, out) = batch_step(pending, s.last());
        match out {
            Some(b) => (sent.push(b), next),
            None => (sent, next),
        }
    }
}

/// The concatenation of batches.
pub open spec fn concat_batches(s: Seq<Seq<ItemWrite>>) -> Seq<ItemWrite>
    decreases s.len(),
{
    if s.len() == 0 {
        Seq::empty()
    } else {
        concat_batches(s.drop_last()) + s.last()
    }
}

/// Collects write requests and hands them out a full batch at a time.
pub struct RequestBatcher {
    pending: Vec<ItemWrite>,
}

impl View for RequestBatcher {
    type V = Seq<ItemWrite>;

    closed spec fn view(&self) -> Seq<ItemWrite> {
        self.pending@
    }
}

impl RequestBatcher {
    /// Fewer requests than a batch are pending.
    #[verifier::type_invariant]
    closed spec fn inv(self) -> bool {
        self.pending@.len() < CHUNK_SIZE
    }

    /// A batcher with nothing pending.
    pub fn new() -> (b: Self)
        ensures
            b@ == Seq::<ItemWrite>::empty(),
    {
        RequestBatcher { pending: Vec::new() }
    }

    /// Adds a request; returns the full batch when this request completes one.
    pub fn push(&mut self, request: ItemWrite) -> (batch: Option<Vec<ItemWrite>>)
        ensures
            final(self)@ == batch_step(old(self)@, request).0,
            match batch {
                Some(b) => batch_step(old(self)@, request).1 == Some(b@),
                None => batch_step(old(self)@, request).1 is None,
            },
    {
        proof {
            use_type_invariant(&*self);
        }
        let mut pending: Vec<ItemWrite> = Vec::new();
        std::mem::swap(&mut pending, &mut self.pending);
        pending.push(request);
        if pending.len() == CHUNK_SIZE {
            Some(pending)
        } else {
            std::mem::swap(&mut pending, &mut self.pending);
            None
        }
    }

    /// Ends the batching: the requests still pending, as a last, shorter batch, when there
    /// are any.
    pub fn finish(self) -> (last: Option<Vec<ItemWrite>>)
        ensures
            match last {
                Some(b) => b@ == self@ && b@.len() > 0,
                None => self@.len() == 0,
            },
    {
        if self.pending.len() == 0 {
            None
        } else {
            Some(self.pending)
        }
    }

    /// The requests waiting for a batch to fill.
    pub fn pending(&self) -> (p: &Vec<ItemWrite>)
        ensures
            p@ == self@,
    {
        &self.pending
    }
}

/// Adding requests one by one loses none: every batch sent on the way holds 25 requests,
/// those batches followed by what is left pending (sent by `finish` as the last batch) are
/// the requests in order, and what is left pending is the remainder of the count divided
/// by 25.
pub proof fn lemma_batches_partition(s: Seq<ItemWrite>)
    ensures
        forall|k: int|
            0 <= k < batch_run(s).0.len() ==> (#[trigger] batch_run(s).0[k]).len() == CHUNK_SIZE,
        concat_batches(batch_run(s).0) + batch_run(s).1 == s,
        batch_run(s).0.len() == s.len() / (CHUNK_SIZE as nat),
        batch_run(s).1.len() == s.len() % (CHUNK_SIZE as nat),
    decreases s.len(),
{
    if s.len() > 0 {
        let t = s.drop_last();
        lemma_batches_partition(t);
        let (sent, pending) = batch_run(t);
        let p = pending.push(s.last());
        if p.len() == CHUNK_SIZE {
            assert(sent.push(p).drop_last() =~= sent);
            assert(concat_batches(sent.push(p)) + Seq::<ItemWrite>::empty() =~= concat_batches(
                sent,
            ) + pending + seq![s.last()]);
            assert(s =~= t.push(s.last()));
            assert(s.len() / 25 == t.len() / 25 + 1 && s.len() % 25 == 0) by (nonlinear_arith)
                requires
                    s.len() == t.len() + 1,
                    t.len() % 25 == 24,
            {
            }
            assert forall|k: int| 0 <= k < sent.push(p).len() implies (#[trigger] sent.push(
                p,
            )[k]).len() == CHUNK_SIZE by {
                if k < sent.len() {
                    assert(sent.push(p)[k] == sent[k]);
                }
            }
        } else {
            assert(concat_batches(sent) + p =~= concat_batches(sent) + pending + seq![s.last()]);
            assert(s =~= t.push(s.last()));
            assert(s.len() / 25 == t.len() / 25 && s.len() % 25 == t.len() % 25 + 1) by (
            nonlinear_arith)
                requires
                    s.len() == t.len() + 1,
                    t.len() % 25 < 24,
            {
            }
        }
    }
}

} // verus!
