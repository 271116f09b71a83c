use vstd::prelude::*;

use crate::types::{GRawSnp, RawSnp, Snp, SnpBlock};

verus! {

/// Per-reader accumulator: one bucket of records per contig. A bucket that
/// reaches the flush threshold leaves the buffer as a `SnpBlock`; a block
/// therefore always carries records of a single contig, in arrival order.
pub struct ReaderBuf {
    pub buckets: Vec<Vec<RawSnp>>,
    pub limit: usize,
}

impl ReaderBuf {
    /// Bucket contents as ghost sequences.
    pub open spec fn model(self) -> Seq<Seq<GRawSnp>> {
        self.buckets.deep_view()
    }

    pub open spec fn wf(self) -> bool {
        &&& self.limit >= 1
        &&& forall|c: int| 0 <= c < self.model().len() ==> (#[trigger] self.model()[c]).len()
            < self.limit
    }

    /// An empty buffer with one bucket per contig.
    pub fn new(limit: usize, n_contigs: usize) -> (r: ReaderBuf)
        requires
            limit >= 1,
        ensures
            r.wf(),
            r.limit == limit,
            r.model().len() == n_contigs,
            forall|c: int| 0 <= c < n_contigs ==> (#[trigger] r.model()[c]) == Seq::<
                GRawSnp,
            >::empty(),
    {
        let mut buckets: Vec<Vec<RawSnp>> = Vec::new();
        let mut i: usize = 0;
        while i < n_contigs
            invariant
                i <= n_contigs,
                buckets@.len() == i,
                forall|c: int| 0 <= c < i ==> (#[trigger] buckets.deep_view()[c]) == Seq::<
                    GRawSnp,
                >::empty(),
            decreases n_contigs - i,
        {
            let ghost pre = buckets.deep_view();
            buckets.push(Vec::new());
            proof {
                assert(buckets.deep_view() =~~= pre.push(Seq::empty()));
            }
            i = i + 1;
        }
        ReaderBuf { buckets, limit }
    }

    /// Append a record to its contig's bucket. When the bucket reaches the
    /// threshold it is flushed: the whole bucket leaves as a block and the
    /// bucket is empty again.
    pub fn add_snp(&mut self, snp: Snp) -> (r: Option<SnpBlock>)
        requires
            old(self).wf(),
            (snp.contig as int) < old(self).model().len(),
        ensures
            final(self).wf(),
            final(self).limit == old(self).limit,
            final(self).model().len() == old(self).model().len(),
            forall|c: int|
                0 <= c < old(self).model().len() && c != snp.contig as int
                    ==> #[trigger] final(self).model()[c] == old(self).model()[c],
            match r {
                None => final(self).model()[snp.contig as int] == old(self).model()[
                    snp.contig as int
                ].push(snp.raw@),
                Some(block) => {
                    &&& block.contig == snp.contig
                    &&& block.snps.deep_view() == old(self).model()[snp.contig as int].push(
                        snp.raw@,
                    )
                    &&& block.snps@.len() == old(self).limit
                    &&& final(self).model()[snp.contig as int] == Seq::<GRawSnp>::empty()
                },
            },
    {
        let (raw, contig) = snp.components();
        let ghost graw = raw@;
        let mut bucket = self.buckets.remove(contig);
        let ghost oldbucket = bucket.deep_view();
        bucket.push(raw);
        proof {
            assert(bucket.deep_view() =~= oldbucket.push(graw));
        }
        if bucket.len() >= self.limit {
            self.buckets.insert(contig, Vec::new());
            proof {
                assert(self.model() =~~= old(self).model().update(
                    contig as int,
                    Seq::<GRawSnp>::empty(),
                ));
            }
            Some(SnpBlock { contig, snps: bucket })
        } else {
            self.buckets.insert(contig, bucket);
            proof {
                assert(self.model() =~~= old(self).model().update(
                    contig as int,
                    oldbucket.push(graw),
                ));
            }
            None
        }
    }

    /// Take the remaining records of one contig as a final block; `None`
    /// when the bucket is empty. Used when a reader finishes its files.
    pub fn take_bucket(&mut self, contig: usize) -> (r: Option<SnpBlock>)
        requires
            old(self).wf(),
            (contig as int) < old(self).model().len(),
        ensures
            final(self).wf(),
            final(self).limit == old(self).limit,
            final(self).model().len() == old(self).model().len(),
            forall|c: int|
                0 <= c < old(self).model().len() && c != contig as int
                    ==> #[trigger] final(self).model()[c] == old(self).model()[c],
            final(self).model()[contig as int] == Seq::<GRawSnp>::empty(),
            match r {
                None => old(self).model()[contig as int] == Seq::<GRawSnp>::empty(),
                Some(block) => {
                    &&& block.contig == contig
                    &&& block.snps.deep_view() == old(self).model()[contig as int]
                    &&& block.snps@.len() > 0
                },
            },
    {
        let bucket = self.buckets.remove(contig);
        self.buckets.insert(contig, Vec::new());
        proof {
            assert(self.model() =~~= old(self).model().update(
                contig as int,
                Seq::<GRawSnp>::empty(),
            ));
            assert(bucket.deep_view() == old(self).model()[contig as int]);
        }
        if bucket.len() == 0 {
            proof {
                assert(bucket.deep_view() =~= Seq::<GRawSnp>::empty());
            }
            None
        } else {
            Some(SnpBlock { contig, snps: bucket })
        }
    }
}

} // verus!
