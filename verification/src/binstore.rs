use vstd::prelude::*;

use crate::types::{GRawSnp, RawSnp};

verus! {

/// Records of one bin are sorted by position, never decreasing.
pub open spec fn spec_bin_sorted(bin: Seq<GRawSnp>) -> bool {
    forall|i: int, j: int|
        0 <= i < j < bin.len() ==> (#[trigger] bin[i]).position <= (#[trigger] bin[j]).position
}

/// No two records of one bin share position and name.
pub open spec fn spec_bin_unique(bin: Seq<GRawSnp>) -> bool {
    forall|i: int, j: int|
        0 <= i < j < bin.len() ==> !(#[trigger] bin[i]).same_key(#[trigger] bin[j])
}

/// Insert a record into a sorted bin: a record with the same position and
/// name is replaced (the later record wins); otherwise the record enters
/// after every record with a smaller or equal position. The flag says
/// whether a duplicate was replaced.
pub open spec fn spec_bin_insert(bin: Seq<GRawSnp>, r: GRawSnp) -> (Seq<GRawSnp>, bool)
    decreases bin.len(),
{
    if bin.len() == 0 {
        (seq![r], false)
    } else if bin[0].same_key(r) {
        (seq![r] + bin.drop_first(), true)
    } else if bin[0].position > r.position {
        (seq![r] + bin, false)
    } else {
        let rest = spec_bin_insert(bin.drop_first(), r);
        (seq![bin[0]] + rest.0, rest.1)
    }
}

/// Total number of records over a sequence of bins.
pub open spec fn spec_store_count(bins: Seq<Seq<GRawSnp>>) -> int
    decreases bins.len(),
{
    if bins.len() == 0 {
        0
    } else {
        spec_store_count(bins.drop_last()) + bins.last().len()
    }
}

pub proof fn lemma_store_count_nonneg(bins: Seq<Seq<GRawSnp>>)
    ensures
        spec_store_count(bins) >= 0,
    decreases bins.len(),
{
    if bins.len() > 0 {
        lemma_store_count_nonneg(bins.drop_last());
    }
}

/// A row of empty bins holds nothing.
pub proof fn lemma_store_count_all_empty(bins: Seq<Seq<GRawSnp>>)
    requires
        forall|c: int| 0 <= c < bins.len() ==> (#[trigger] bins[c]).len() == 0,
    ensures
        spec_store_count(bins) == 0,
    decreases bins.len(),
{
    if bins.len() > 0 {
        lemma_store_count_all_empty(bins.drop_last());
    }
}

/// Updating one bin changes the total count by the difference of that
/// bin's length.
pub proof fn lemma_store_count_update(bins: Seq<Seq<GRawSnp>>, b: int, nb: Seq<GRawSnp>)
    requires
        0 <= b < bins.len(),
    ensures
        spec_store_count(bins.update(b, nb)) == spec_store_count(bins) - bins[b].len() + nb.len(),
    decreases bins.len(),
{
    if bins.len() > 0 {
        if b == bins.len() - 1 {
            assert(bins.update(b, nb).drop_last() =~= bins.drop_last());
        } else {
            lemma_store_count_update(bins.drop_last(), b, nb);
            assert(bins.update(b, nb).drop_last() =~= bins.drop_last().update(b, nb));
        }
    }
}

/// Appending an empty bin keeps the count.
pub proof fn lemma_store_count_push_empty(bins: Seq<Seq<GRawSnp>>)
    ensures
        spec_store_count(bins.push(Seq::empty())) == spec_store_count(bins),
{
    assert(bins.push(Seq::<GRawSnp>::empty()).drop_last() =~= bins);
}

/// The count of a concatenation is the sum of the counts.
pub proof fn lemma_store_count_concat(a: Seq<Seq<GRawSnp>>, b: Seq<Seq<GRawSnp>>)
    ensures
        spec_store_count(a + b) == spec_store_count(a) + spec_store_count(b),
    decreases b.len(),
{
    if b.len() == 0 {
        assert(a + b =~= a);
    } else {
        lemma_store_count_concat(a, b.drop_last());
        assert((a + b).drop_last() =~= a + b.drop_last());
        assert((a + b).last() == b.last());
    }
}

/// What an insertion does: it keeps length or grows it by one, the flag
/// says whether a record with the inserted key was already there, order
/// and uniqueness survive, and every record of the result is the inserted
/// one or comes from the old bin.
pub proof fn lemma_bin_insert_props(bin: Seq<GRawSnp>, r: GRawSnp)
    requires
        spec_bin_sorted(bin),
        spec_bin_unique(bin),
    ensures
        spec_bin_sorted(spec_bin_insert(bin, r).0),
        spec_bin_unique(spec_bin_insert(bin, r).0),
        spec_bin_insert(bin, r).1 == exists|i: int| 0 <= i < bin.len() && (#[trigger] bin[i]).same_key(r),
        spec_bin_insert(bin, r).0.len() == bin.len() + (if spec_bin_insert(bin, r).1 {
            0int
        } else {
            1int
        }),
        forall|k: int|
            0 <= k < spec_bin_insert(bin, r).0.len() ==> (#[trigger] spec_bin_insert(bin, r).0[k]
                == r || exists|j: int| 0 <= j < bin.len() && spec_bin_insert(bin, r).0[k] == bin[j]),
        exists|k: int|
            0 <= k < spec_bin_insert(bin, r).0.len() && (#[trigger] spec_bin_insert(bin, r).0[k]
                == r),
    decreases bin.len(),
{
    let res = spec_bin_insert(bin, r).0;
    if bin.len() == 0 {
    } else if bin[0].same_key(r) {
        assert(res == seq![r] + bin.drop_first());
        assert(res[0] == r);
        assert(forall|k: int| 1 <= k < res.len() ==> res[k] == bin[k]);
        assert(forall|k: int| 0 <= k < bin.len() ==> bin[0].position <= (#[trigger] bin[k]).position
            || k == 0);
        assert(spec_bin_sorted(res)) by {
            assert(forall|k: int| 1 <= k < res.len() ==> r.position <= (#[trigger] res[k]).position)
                by {
                assert(forall|k: int| 1 <= k < bin.len() ==> bin[0].position <= (
                #[trigger] bin[k]).position);
            }
        }
        assert(spec_bin_unique(res)) by {
            assert(forall|k: int| 1 <= k < res.len() ==> !(#[trigger] res[k]).same_key(bin[0]));
        }
    } else if bin[0].position > r.position {
        assert(res == seq![r] + bin);
        assert(res[0] == r);
        assert(forall|k: int| 1 <= k < res.len() ==> res[k] == bin[k - 1]);
        assert(forall|i: int| 0 <= i < bin.len() ==> r.position < (#[trigger] bin[i]).position);
        assert(!spec_bin_insert(bin, r).1);
        assert(forall|i: int| 0 <= i < bin.len() ==> !(#[trigger] bin[i]).same_key(r));
    } else {
        let tail = bin.drop_first();
        assert(spec_bin_sorted(tail) && spec_bin_unique(tail)) by {
            assert(forall|i: int| 0 <= i < tail.len() ==> tail[i] == bin[i + 1]);
        }
        lemma_bin_insert_props(tail, r);
        let rest = spec_bin_insert(tail, r);
        assert(res == seq![bin[0]] + rest.0);
        assert(res[0] == bin[0]);
        assert(forall|k: int| 1 <= k < res.len() ==> res[k] == rest.0[k - 1]);
        // the head is not a duplicate of r, so the flag is decided by the tail
        assert(!bin[0].same_key(r));
        assert(spec_bin_insert(bin, r).1 == rest.1);
        if rest.1 {
            assert(exists|i: int| 0 <= i < tail.len() && (#[trigger] tail[i]).same_key(r));
            let i = choose|i: int| 0 <= i < tail.len() && (#[trigger] tail[i]).same_key(r);
            assert(bin[i + 1].same_key(r));
        } else {
            assert(forall|i: int| 0 <= i < bin.len() ==> !(#[trigger] bin[i]).same_key(r)) by {
                assert(forall|i: int| 1 <= i < bin.len() ==> bin[i] == tail[i - 1]);
            }
        }
        // order: every record of the tail result is r or an old tail record,
        // and both have positions at least bin[0].position
        assert(bin[0].position <= r.position);
        assert(forall|k: int| 0 <= k < rest.0.len() ==> bin[0].position <= (
        #[trigger] rest.0[k]).position) by {
            assert(forall|j: int| 0 <= j < tail.len() ==> bin[0].position <= (
            #[trigger] tail[j]).position);
        }
        assert(spec_bin_sorted(res));
        assert(spec_bin_unique(res)) by {
            assert(forall|k: int| 0 <= k < rest.0.len() ==> !(#[trigger] rest.0[k]).same_key(
                bin[0],
            )) by {
                assert(forall|j: int| 0 <= j < tail.len() ==> !(#[trigger] tail[j]).same_key(
                    bin[0],
                ));
            }
        }
        assert(forall|k: int|
            0 <= k < res.len() ==> (#[trigger] res[k] == r || exists|j: int|
                0 <= j < bin.len() && res[k] == bin[j])) by {
            assert(forall|k: int|
                1 <= k < res.len() ==> #[trigger] rest.0[k - 1] == r || exists|j: int|
                    0 <= j < tail.len() && rest.0[k - 1] == #[trigger] tail[j]);
            assert(forall|j: int| 0 <= j < tail.len() ==> tail[j] == bin[j + 1]);
            assert forall|k: int| 1 <= k < res.len() implies (#[trigger] res[k] == r || exists|j: int|
                0 <= j < bin.len() && res[k] == bin[j]) by {
                if res[k] != r {
                    let j = choose|j: int| 0 <= j < tail.len() && rest.0[k - 1] == tail[j];
                    assert(res[k] == bin[j + 1]);
                }
            }
        }
        let k0 = choose|k: int| 0 <= k < rest.0.len() && (#[trigger] rest.0[k]) == r;
        assert(res[k0 + 1] == r);
    }
}

/// Skipping a scanned prefix: if no record of the prefix can interact with
/// `r` (smaller position, or equal position under another name), insertion
/// into the whole bin is the prefix followed by insertion into the rest.
pub proof fn lemma_bin_insert_skip(bin: Seq<GRawSnp>, r: GRawSnp, i: int)
    requires
        0 <= i <= bin.len(),
        forall|k: int|
            0 <= k < i ==> (#[trigger] bin[k]).position < r.position || (bin[k].position
                == r.position && bin[k].name != r.name),
    ensures
        spec_bin_insert(bin, r).0 == bin.take(i) + spec_bin_insert(bin.skip(i), r).0,
        spec_bin_insert(bin, r).1 == spec_bin_insert(bin.skip(i), r).1,
    decreases i,
{
    if i == 0 {
        assert(bin.skip(0) =~= bin);
        assert(bin.take(0) + spec_bin_insert(bin, r).0 =~= spec_bin_insert(bin, r).0);
    } else {
        // the head is neither a duplicate of r nor past it
        assert(!bin[0].same_key(r));
        assert(!(bin[0].position > r.position));
        let tail = bin.drop_first();
        assert(forall|k: int|
            0 <= k < i - 1 ==> (#[trigger] tail[k]).position < r.position || (tail[k].position
                == r.position && tail[k].name != r.name)) by {
            assert(forall|k: int| 0 <= k < tail.len() ==> #[trigger] tail[k] == bin[k + 1]);
        }
        lemma_bin_insert_skip(tail, r, i - 1);
        assert(tail.skip(i - 1) =~= bin.skip(i));
        assert(seq![bin[0]] + (tail.take(i - 1) + spec_bin_insert(bin.skip(i), r).0) =~= bin.take(i)
            + spec_bin_insert(bin.skip(i), r).0) by {
            assert(tail.take(i - 1) =~= bin.take(i).drop_first());
            assert(bin.take(i)[0] == bin[0]);
        }
    }
}

/// Positional index for one contig: a dense vector of bins from `min_bin`
/// up, each bin holding its records sorted by position.
pub struct BinStore {
    pub reference_id: u32,
    pub bin_shift: u8,
    pub min_bin: u32,
    pub bins: Vec<Vec<RawSnp>>,
    pub n_snps: u32,
}

impl BinStore {
    /// The bins as mathematical sequences.
    pub open spec fn model(self) -> Seq<Seq<GRawSnp>> {
        self.bins.deep_view()
    }

    /// Does the dense vector cover absolute bin `b`?
    pub open spec fn covers_bin(self, b: int) -> bool {
        self.min_bin <= b < self.min_bin + self.bins@.len()
    }

    /// Records of absolute bin `b`; empty outside the covered range.
    pub open spec fn bin_at(self, b: int) -> Seq<GRawSnp> {
        if self.covers_bin(b) {
            self.model()[b - self.min_bin]
        } else {
            Seq::empty()
        }
    }

    pub open spec fn wf(self) -> bool {
        &&& self.bin_shift < 32
        &&& self.min_bin + self.bins@.len() <= u32::MAX as int + 1
        &&& self.n_snps == spec_store_count(self.model())
        &&& forall|b: int|
            0 <= b < self.model().len() ==> spec_bin_sorted(#[trigger] self.model()[b])
                && spec_bin_unique(self.model()[b])
        &&& forall|b: int, k: int|
            0 <= b < self.model().len() && 0 <= k < self.model()[b].len() ==> {
                &&& ((#[trigger] self.model()[b][k]).position >> self.bin_shift) == self.min_bin
                    + b
                &&& self.model()[b][k].wf()
            }
    }

    /// An empty store for one contig.
    pub fn new(reference_id: u32, bin_shift: u8) -> (s: BinStore)
        requires
            bin_shift < 32,
        ensures
            s.wf(),
            s.reference_id == reference_id,
            s.bin_shift == bin_shift,
            s.bins@.len() == 0,
            s.min_bin == 0,
            s.n_snps == 0,
            forall|b: int| #[trigger] s.bin_at(b) == Seq::<GRawSnp>::empty(),
    {
        let s = BinStore {
            reference_id,
            bin_shift,
            min_bin: 0,
            bins: Vec::new(),
            n_snps: 0,
        };
        proof {
            assert(s.model() =~= Seq::<Seq<GRawSnp>>::empty());
        }
        s
    }

    /// Grow the dense vector so that it covers every bin from
    /// `min_pos >> bin_shift` to `max_pos >> bin_shift`. Existing bins keep
    /// their contents and their absolute bin numbers.
    pub fn check_bins(&mut self, min_pos: u32, max_pos: u32)
        requires
            old(self).wf(),
            min_pos <= max_pos,
            usize::MAX as int >= u32::MAX as int + 1,
        ensures
            final(self).wf(),
            final(self).reference_id == old(self).reference_id,
            final(self).bin_shift == old(self).bin_shift,
            final(self).n_snps == old(self).n_snps,
            forall|b: int| #[trigger] final(self).bin_at(b) == old(self).bin_at(b),
            forall|b: int| old(self).covers_bin(b) ==> final(self).covers_bin(b),
            final(self).covers_bin((min_pos >> old(self).bin_shift) as int),
            final(self).covers_bin((max_pos >> old(self).bin_shift) as int),
            final(self).bins@.len() > 0,
            final(self).min_bin as int == if old(self).bins@.len() == 0 {
                (min_pos >> old(self).bin_shift) as int
            } else if old(self).min_bin <= (min_pos >> old(self).bin_shift) {
                old(self).min_bin as int
            } else {
                (min_pos >> old(self).bin_shift) as int
            },
            final(self).min_bin + final(self).bins@.len() - 1 == if old(self).bins@.len() == 0 {
                (max_pos >> old(self).bin_shift) as int
            } else if old(self).min_bin + old(self).bins@.len() - 1 >= (max_pos >> old(
                self,
            ).bin_shift) as int {
                old(self).min_bin + old(self).bins@.len() - 1
            } else {
                (max_pos >> old(self).bin_shift) as int
            },
    {
        let lo = min_pos >> self.bin_shift;
        let hi = max_pos >> self.bin_shift;
        proof {
            lemma_shr_le(min_pos, max_pos, self.bin_shift);
        }
        if self.bins.len() == 0 {
            self.min_bin = lo;
            let n = (hi - lo) as usize + 1;
            let ghost pre = *self;
            let mut k: usize = 0;
            while k < n
                invariant
                    k <= n,
                    self.bins@.len() == k,
                    *self == (BinStore { bins: self.bins, ..pre }),
                    forall|b: int|
                        0 <= b < k ==> #[trigger] self.model()[b] == Seq::<GRawSnp>::empty(),
                    spec_store_count(self.model()) == 0,
                decreases n - k,
            {
                let ghost prebins = self.model();
                self.bins.push(Vec::new());
                proof {
                    assert(self.model() =~~= prebins.push(Seq::empty()));
                    lemma_store_count_push_empty(prebins);
                }
                k = k + 1;
            }
            proof {
                assert(forall|b: int| old(self).bin_at(b) == Seq::<GRawSnp>::empty());
                assert(forall|b: int|
                    self.covers_bin(b) ==> #[trigger] self.bin_at(b) == self.model()[b
                        - self.min_bin]);
            }
            return ;
        }
        // extend the upper end
        if hi >= self.min_bin {
            let want: u64 = (hi - self.min_bin) as u64 + 1;
            let ghost pre = *self;
            while (self.bins.len() as u64) < want
                invariant
                    old(self).bins@.len() <= self.bins@.len(),
                    want <= u32::MAX as u64 + 1,
                    want == hi as int - self.min_bin + 1,
                    self.bins@.len() <= want || self.bins@.len() == old(self).bins@.len(),
                    self.min_bin + self.bins@.len() <= u32::MAX as int + 1,
                    usize::MAX as int >= u32::MAX as int + 1,
                    *self == (BinStore { bins: self.bins, ..pre }),
                    pre == *old(self),
                    forall|b: int|
                        0 <= b < old(self).bins@.len() ==> #[trigger] self.model()[b] == old(
                            self,
                        ).model()[b],
                    forall|b: int|
                        old(self).bins@.len() <= b < self.bins@.len()
                            ==> #[trigger] self.model()[b] == Seq::<GRawSnp>::empty(),
                    spec_store_count(self.model()) == spec_store_count(old(self).model()),
                decreases want - self.bins@.len(),
            {
                let ghost prebins = self.model();
                self.bins.push(Vec::new());
                proof {
                    assert(self.model() =~~= prebins.push(Seq::empty()));
                    lemma_store_count_push_empty(prebins);
                }
            }
        }
        // extend the lower end: new empty bins go in front and the base
        // index shifts down
        if lo < self.min_bin {
            let shift: u64 = (self.min_bin - lo) as u64;
            let ghost pre = *self;
            let mut front: Vec<Vec<RawSnp>> = Vec::new();
            let mut k: u64 = 0;
            while k < shift
                invariant
                    k <= shift,
                    shift <= u32::MAX as u64,
                    usize::MAX as int >= u32::MAX as int + 1,
                    front@.len() == k,
                    forall|b: int|
                        0 <= b < k ==> #[trigger] front.deep_view()[b] == Seq::<GRawSnp>::empty(),
                    spec_store_count(front.deep_view()) == 0,
                decreases shift - k,
            {
                let ghost prefront = front.deep_view();
                front.push(Vec::new());
                proof {
                    assert(front.deep_view() =~~= prefront.push(Seq::empty()));
                    lemma_store_count_push_empty(prefront);
                }
                k = k + 1;
            }
            let ghost gfront = front.deep_view();
            let ghost gold = self.model();
            front.append(&mut self.bins);
            self.bins = front;
            self.min_bin = lo;
            proof {
                assert(self.model() =~~= gfront + gold);
                lemma_store_count_concat(gfront, gold);
            }
        }
        proof {
            assert(forall|b: int|
                old(self).covers_bin(b) ==> #[trigger] self.bin_at(b) == old(self).bin_at(b));
            assert(forall|b: int|
                !old(self).covers_bin(b) && self.covers_bin(b) ==> #[trigger] self.bin_at(b)
                    == Seq::<GRawSnp>::empty());
            assert(self.min_bin + self.bins@.len() <= u32::MAX as int + 1);
            assert(self.n_snps == spec_store_count(self.model()));
            assert forall|b: int| 0 <= b < self.model().len() implies spec_bin_sorted(
                #[trigger] self.model()[b],
            ) && spec_bin_unique(self.model()[b]) by {
                let abs = self.min_bin + b;
                assert(self.covers_bin(abs));
                assert(self.bin_at(abs) == self.model()[b]);
                if old(self).covers_bin(abs) {
                    assert(old(self).bin_at(abs) == old(self).model()[abs - old(self).min_bin]);
                } else {
                    assert(self.model()[b] == Seq::<GRawSnp>::empty());
                }
            }
            assert forall|b: int, k: int|
                0 <= b < self.model().len() && 0 <= k < self.model()[b].len() implies {
                &&& ((#[trigger] self.model()[b][k]).position >> self.bin_shift) == self.min_bin
                    + b
                &&& self.model()[b][k].wf()
            } by {
                let abs = self.min_bin + b;
                assert(self.covers_bin(abs));
                assert(self.bin_at(abs) == self.model()[b]);
                if old(self).covers_bin(abs) {
                    assert(old(self).bin_at(abs) == old(self).model()[abs - old(self).min_bin]);
                } else {
                    assert(self.model()[b] == Seq::<GRawSnp>::empty());
                }
            }
        }
    }

    /// Insert one record into its bin. Returns true when a record with the
    /// same position and name was already stored and has been replaced by
    /// this one.
    #[verifier::rlimit(60)]
    pub fn add(&mut self, snp: RawSnp) -> (dup: bool)
        requires
            old(self).wf(),
            snp@.wf(),
            old(self).covers_bin((snp.position >> old(self).bin_shift) as int),
            old(self).n_snps < u32::MAX,
        ensures
            final(self).wf(),
            final(self).reference_id == old(self).reference_id,
            final(self).bin_shift == old(self).bin_shift,
            final(self).min_bin == old(self).min_bin,
            final(self).bins@.len() == old(self).bins@.len(),
            dup == spec_bin_insert(
                old(self).bin_at((snp.position >> old(self).bin_shift) as int),
                snp@,
            ).1,
            final(self).bin_at((snp.position >> old(self).bin_shift) as int) == spec_bin_insert(
                old(self).bin_at((snp.position >> old(self).bin_shift) as int),
                snp@,
            ).0,
            forall|b: int|
                b != (snp.position >> old(self).bin_shift) as int ==> #[trigger] final(self).bin_at(
                    b,
                ) == old(self).bin_at(b),
            final(self).n_snps == old(self).n_snps + (if dup {
                0int
            } else {
                1int
            }),
    {
        let bidx = ((snp.position >> self.bin_shift) - self.min_bin) as usize;
        let ghost gb = (snp.position >> self.bin_shift) as int;
        let ghost oldbin = self.model()[bidx as int];
        proof {
            lemma_bin_insert_props(oldbin, snp@);
        }
        // scan past records with smaller positions
        let n = self.bins[bidx].len();
        let mut i: usize = 0;
        while i < n && self.bins[bidx][i].position < snp.position
            invariant
                *self == *old(self),
                oldbin == self.model()[bidx as int],
                bidx < self.bins@.len(),
                n == oldbin.len(),
                n == self.bins@[bidx as int]@.len(),
                i <= n,
                forall|k: int| 0 <= k < i ==> (#[trigger] oldbin[k]).position < snp@.position,
            decreases n - i,
        {
            proof {
                assert(oldbin[i as int] == self.bins@[bidx as int]@[i as int]@);
            }
            i = i + 1;
        }
        let run_start = i;
        proof {
            if i < n {
                assert(oldbin[i as int] == self.bins@[bidx as int]@[i as int]@);
            }
        }
        // walk the run of records at exactly this position
        while i < n && self.bins[bidx][i].position == snp.position
            invariant
                *self == *old(self),
                oldbin == self.model()[bidx as int],
                bidx < self.bins@.len(),
                n == oldbin.len(),
                n == self.bins@[bidx as int]@.len(),
                run_start <= i <= n,
                forall|k: int|
                    0 <= k < run_start ==> (#[trigger] oldbin[k]).position < snp@.position,
                forall|k: int|
                    run_start <= k < i ==> (#[trigger] oldbin[k]).position == snp@.position,
            decreases n - i,
        {
            proof {
                assert(oldbin[i as int] == self.bins@[bidx as int]@[i as int]@);
            }
            i = i + 1;
        }
        let run_end = i;
        proof {
            if i < n {
                assert(oldbin[i as int] == self.bins@[bidx as int]@[i as int]@);
            }
            assert(spec_bin_sorted(oldbin));
        }
        // look for a record with the same name inside the run
        let mut dup_found = false;
        let mut k = run_start;
        while k < run_end && !dup_found
            invariant
                *self == *old(self),
                oldbin == self.model()[bidx as int],
                bidx < self.bins@.len(),
                n == oldbin.len(),
                n == self.bins@[bidx as int]@.len(),
                run_start <= k <= run_end <= n,
                forall|m: int|
                    run_start <= m < run_end ==> (#[trigger] oldbin[m]).position == snp@.position,
                forall|m: int|
                    run_start <= m < k ==> (#[trigger] oldbin[m]).name != snp@.name,
                dup_found ==> k < run_end && oldbin[k as int].name == snp@.name,
            decreases run_end - k + (if dup_found {
                0int
            } else {
                1int
            }),
        {
            proof {
                assert(oldbin[k as int] == self.bins@[bidx as int]@[k as int]@);
            }
            if bytes_eq(&self.bins[bidx][k].name, &snp.name) {
                dup_found = true;
            } else {
                k = k + 1;
            }
        }
        if dup_found {
            // a duplicate key: the later record replaces the stored one
            proof {
                assert(forall|m: int|
                    0 <= m < k ==> (#[trigger] oldbin[m]).position < snp@.position || (
                    oldbin[m].position == snp@.position && oldbin[m].name != snp@.name));
                lemma_bin_insert_skip(oldbin, snp@, k as int);
                assert(oldbin.skip(k as int)[0] == oldbin[k as int]);
                assert(oldbin.skip(k as int)[0].same_key(snp@));
                assert(spec_bin_insert(oldbin.skip(k as int), snp@).0 == seq![snp@] + oldbin.skip(
                    k as int,
                ).drop_first());
                assert(oldbin.skip(k as int).drop_first() =~= oldbin.skip(k as int + 1));
                assert(spec_bin_insert(oldbin, snp@).0 =~= oldbin.update(k as int, snp@));
            }
            let nb = bin_copy_set(&self.bins[bidx], k, snp);
            let ghost gmodel = self.model();
            self.bins[bidx] = nb;
            proof {
                assert(self.model() =~~= gmodel.update(
                    bidx as int,
                    oldbin.update(k as int, snp@),
                ));
                lemma_store_count_update(gmodel, bidx as int, self.model()[bidx as int]);
                lemma_add_frame(*old(self), *self, bidx as int, gb);
                lemma_wf_after_set_bin(*old(self), *self, bidx as int, spec_bin_insert(
                    oldbin,
                    snp@,
                ).0, snp@, gb);
            }
            true
        } else {
            // no duplicate: the record enters at the end of its run
            proof {
                assert(forall|m: int|
                    0 <= m < run_end ==> (#[trigger] oldbin[m]).position < snp@.position || (
                    oldbin[m].position == snp@.position && oldbin[m].name != snp@.name));
                lemma_bin_insert_skip(oldbin, snp@, run_end as int);
                if run_end < n {
                    assert(oldbin[run_end as int].position != snp@.position);
                    assert(oldbin[run_end as int].position >= snp@.position) by {
                        if run_end > run_start {
                            assert(oldbin[run_end - 1].position == snp@.position);
                        }
                    }
                    assert(oldbin.skip(run_end as int)[0] == oldbin[run_end as int]);
                    assert(spec_bin_insert(oldbin.skip(run_end as int), snp@).0 == seq![snp@]
                        + oldbin.skip(run_end as int));
                } else {
                    assert(oldbin.skip(run_end as int) =~= Seq::<GRawSnp>::empty());
                    assert(spec_bin_insert(oldbin.skip(run_end as int), snp@).0 == seq![snp@]);
                }
                assert(spec_bin_insert(oldbin, snp@).0 =~= oldbin.insert(run_end as int, snp@));
            }
            let nb = bin_copy_insert(&self.bins[bidx], run_end, snp);
            let ghost gmodel = self.model();
            self.bins[bidx] = nb;
            self.n_snps = self.n_snps + 1;
            proof {
                assert(self.model() =~~= gmodel.update(
                    bidx as int,
                    oldbin.insert(run_end as int, snp@),
                ));
                lemma_store_count_update(gmodel, bidx as int, self.model()[bidx as int]);
                lemma_add_frame(*old(self), *self, bidx as int, gb);
                lemma_wf_after_set_bin(*old(self), *self, bidx as int, spec_bin_insert(
                    oldbin,
                    snp@,
                ).0, snp@, gb);
            }
            false
        }
    }
}

/// Bins other than the changed one keep their contents.
proof fn lemma_add_frame(pre: BinStore, post: BinStore, bidx: int, gb: int)
    requires
        pre.min_bin == post.min_bin,
        pre.bins@.len() == post.bins@.len(),
        0 <= bidx < pre.bins@.len(),
        gb == pre.min_bin + bidx,
        forall|b: int| 0 <= b < pre.model().len() && b != bidx ==> #[trigger] post.model()[b]
            == pre.model()[b],
    ensures
        forall|b: int| b != gb ==> #[trigger] post.bin_at(b) == pre.bin_at(b),
        post.bin_at(gb) == post.model()[bidx],
        pre.bin_at(gb) == pre.model()[bidx],
{
}

/// Well-formedness survives replacing one bin by the insertion result.
proof fn lemma_wf_after_set_bin(
    pre: BinStore,
    post: BinStore,
    bidx: int,
    nb: Seq<GRawSnp>,
    r: GRawSnp,
    gb: int,
)
    requires
        pre.wf(),
        r.wf(),
        post.reference_id == pre.reference_id,
        post.bin_shift == pre.bin_shift,
        post.min_bin == pre.min_bin,
        post.bins@.len() == pre.bins@.len(),
        0 <= bidx < pre.bins@.len(),
        gb == pre.min_bin + bidx,
        ((r.position >> pre.bin_shift) as int) == gb,
        nb == spec_bin_insert(pre.model()[bidx], r).0,
        post.model() == pre.model().update(bidx, nb),
        post.n_snps == spec_store_count(post.model()),
    ensures
        post.wf(),
{
    lemma_bin_insert_props(pre.model()[bidx], r);
    assert forall|b: int| 0 <= b < post.model().len() implies spec_bin_sorted(
        #[trigger] post.model()[b],
    ) && spec_bin_unique(post.model()[b]) by {
        if b != bidx {
            assert(post.model()[b] == pre.model()[b]);
        }
    }
    assert forall|b: int, k: int|
        0 <= b < post.model().len() && 0 <= k < post.model()[b].len() implies {
        &&& ((#[trigger] post.model()[b][k]).position >> post.bin_shift) == post.min_bin + b
        &&& post.model()[b][k].wf()
    } by {
        if b != bidx {
            assert(post.model()[b] == pre.model()[b]);
        } else {
            let rec = post.model()[b][k];
            assert(rec == r || exists|j: int|
                0 <= j < pre.model()[bidx].len() && rec == pre.model()[bidx][j]);
        }
    }
}

/// Are two byte vectors equal?
pub fn bytes_eq(a: &Vec<u8>, b: &Vec<u8>) -> (r: bool)
    ensures
        r == (a@ == b@),
{
    if a.len() != b.len() {
        return false;
    }
    let mut i: usize = 0;
    while i < a.len()
        invariant
            a@.len() == b@.len(),
            i <= a@.len(),
            forall|j: int| 0 <= j < i ==> a@[j] == b@[j],
        decreases a@.len() - i,
    {
        if a[i] != b[i] {
            return false;
        }
        i = i + 1;
    }
    proof {
        assert(a@ =~= b@);
    }
    true
}

/// Copy a whole bin, record for record.
fn bin_copy(bin: &Vec<RawSnp>) -> (r: Vec<RawSnp>)
    ensures
        r.deep_view() == bin.deep_view(),
        r@.len() == bin@.len(),
{
    let mut out: Vec<RawSnp> = Vec::new();
    let mut i: usize = 0;
    while i < bin.len()
        invariant
            i <= bin@.len(),
            out@.len() == i,
            out.deep_view() == bin.deep_view().take(i as int),
        decreases bin@.len() - i,
    {
        let ghost pre = out.deep_view();
        out.push(copy_snp(&bin[i]));
        proof {
            assert(out.deep_view() =~= pre.push(bin@[i as int]@));
            assert(bin.deep_view()[i as int] == bin@[i as int]@);
            assert(out.deep_view() =~= bin.deep_view().take(i + 1));
        }
        i = i + 1;
    }
    proof {
        assert(bin.deep_view().take(i as int) =~= bin.deep_view());
    }
    out
}

/// Copy a bin with the record at `at` replaced.
fn bin_copy_set(bin: &Vec<RawSnp>, at: usize, snp: RawSnp) -> (r: Vec<RawSnp>)
    requires
        at < bin@.len(),
    ensures
        r.deep_view() == bin.deep_view().update(at as int, snp@),
{
    let mut out = bin_copy(bin);
    let ghost pre = out.deep_view();
    out[at] = snp;
    proof {
        assert(out.deep_view() =~= pre.update(at as int, snp@));
    }
    out
}

/// Copy a bin with `snp` inserted at `at`.
fn bin_copy_insert(bin: &Vec<RawSnp>, at: usize, snp: RawSnp) -> (r: Vec<RawSnp>)
    requires
        at <= bin@.len(),
    ensures
        r.deep_view() == bin.deep_view().insert(at as int, snp@),
{
    let mut out: Vec<RawSnp> = Vec::new();
    let mut i: usize = 0;
    while i < at
        invariant
            i <= at <= bin@.len(),
            out@.len() == i,
            out.deep_view() == bin.deep_view().take(i as int),
        decreases at - i,
    {
        let ghost pre = out.deep_view();
        out.push(copy_snp(&bin[i]));
        proof {
            assert(out.deep_view() =~= pre.push(bin@[i as int]@));
            assert(bin.deep_view()[i as int] == bin@[i as int]@);
            assert(out.deep_view() =~= bin.deep_view().take(i + 1));
        }
        i = i + 1;
    }
    let ghost prefix = out.deep_view();
    out.push(snp);
    proof {
        assert(out.deep_view() =~= prefix.push(snp@));
    }
    let mut j = at;
    while j < bin.len()
        invariant
            at <= j <= bin@.len(),
            out@.len() == j + 1,
            out.deep_view() == bin.deep_view().take(at as int) + seq![snp@]
                + bin.deep_view().subrange(at as int, j as int),
        decreases bin@.len() - j,
    {
        let ghost pre = out.deep_view();
        out.push(copy_snp(&bin[j]));
        proof {
            assert(out.deep_view() =~= pre.push(bin@[j as int]@));
            assert(bin.deep_view()[j as int] == bin@[j as int]@);
            assert(out.deep_view() =~= bin.deep_view().take(at as int) + seq![snp@]
                + bin.deep_view().subrange(at as int, j + 1));
        }
        j = j + 1;
    }
    proof {
        assert(bin.deep_view().subrange(at as int, j as int) =~= bin.deep_view().skip(at as int));
        assert(out.deep_view() =~= bin.deep_view().insert(at as int, snp@));
    }
    out
}

/// A field-for-field copy of a record.
pub fn copy_snp(r: &RawSnp) -> (c: RawSnp)
    ensures
        c@ == r@,
{
    let mut name: Vec<u8> = Vec::new();
    crate::bytes::push_bytes(&mut name, &r.name);
    proof {
        assert(name@ =~= r.name@);
    }
    RawSnp { position: r.position, name, allele_code: r.allele_code, flags: r.flags }
}

/// Right shifts keep order.
pub proof fn lemma_shr_le(a: u32, b: u32, s: u8)
    requires
        a <= b,
        s < 32,
    ensures
        (a >> s) <= (b >> s),
{
    assert((a >> s) <= (b >> s)) by (bit_vector)
        requires
            a <= b,
            s < 32,
    ;
}

} // verus!
