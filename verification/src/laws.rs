use vstd::prelude::*;

use crate::binstore::BinStore;
use crate::process::spec_build_bytes;
use crate::types::GContig;

verus! {

/// Within a contig's store, records read out in bin order, position order
/// inside a bin, are never decreasing in position, and no two records
/// share a position and a name. This holds of every well-formed store,
/// so in particular of every store a build produces.
pub proof fn lemma_store_records_ordered(
    s: BinStore,
    b1: int,
    k1: int,
    b2: int,
    k2: int,
)
    requires
        s.wf(),
        0 <= b1 < s.model().len(),
        0 <= b2 < s.model().len(),
        0 <= k1 < s.model()[b1].len(),
        0 <= k2 < s.model()[b2].len(),
        b1 < b2 || (b1 == b2 && k1 < k2),
    ensures
        s.model()[b1][k1].position <= s.model()[b2][k2].position,
        !s.model()[b1][k1].same_key(s.model()[b2][k2]),
{
    let r1 = s.model()[b1][k1];
    let r2 = s.model()[b2][k2];
    if b1 == b2 {
        assert(r1.position <= r2.position);
        assert(!r1.same_key(r2));
    } else {
        assert((r1.position >> s.bin_shift) == s.min_bin + b1);
        assert((r2.position >> s.bin_shift) == s.min_bin + b2);
        assert(r1.position <= r2.position) by {
            if r1.position > r2.position {
                crate::binstore::lemma_shr_le(r2.position, r1.position, s.bin_shift);
            }
        }
        assert(r1.position != r2.position);
    }
}

/// Every record sits in the bin its position selects: for a record stored
/// under bin number `b`, `b == position >> bin_shift`.
pub proof fn lemma_store_bin_membership(s: BinStore, b: int, k: int)
    requires
        s.wf(),
        0 <= b < s.model().len(),
        0 <= k < s.model()[b].len(),
    ensures
        s.min_bin + b == (s.model()[b][k].position >> s.bin_shift),
{
}

/// Two builds from the same inputs write the same bytes: a successful
/// build's output is pinned to `spec_build_bytes`, a function of the
/// contig table, the rewrite rules, the bin shift and the input lines
/// alone.
pub proof fn lemma_build_idempotent(
    out1: Seq<u8>,
    out2: Seq<u8>,
    table: Seq<GContig>,
    pmap: Seq<(Seq<u8>, Seq<u8>)>,
    bin_shift: u8,
    files: Seq<Seq<Seq<u8>>>,
)
    requires
        out1 == spec_build_bytes(table, pmap, bin_shift, files),
        out2 == spec_build_bytes(table, pmap, bin_shift, files),
    ensures
        out1 == out2,
{
}

/// The worker counts never change the output: builds over the same inputs
/// with different `threads` and `block_limit` settings write the same
/// bytes, because neither setting appears in `spec_build_bytes`.
pub proof fn lemma_threads_do_not_change_output(
    out1: Seq<u8>,
    out2: Seq<u8>,
    threads1: usize,
    threads2: usize,
    block_limit1: usize,
    block_limit2: usize,
    table: Seq<GContig>,
    pmap: Seq<(Seq<u8>, Seq<u8>)>,
    bin_shift: u8,
    files: Seq<Seq<Seq<u8>>>,
)
    requires
        threads1 >= 1,
        threads2 >= 1,
        block_limit1 >= 1,
        block_limit2 >= 1,
        out1 == spec_build_bytes(table, pmap, bin_shift, files),
        out2 == spec_build_bytes(table, pmap, bin_shift, files),
    ensures
        out1 == out2,
{
}

} // verus!
