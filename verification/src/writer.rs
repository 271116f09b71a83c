use vstd::prelude::*;

use crate::binstore::{spec_store_count, BinStore};
use crate::bytes::{
    push_bytes, push_u16_be, push_u32_be, push_u64_be, spec_u16_be, spec_u32_be, spec_u64_be,
};
use crate::types::{GContig, GRawSnp};

verus! {

/// Magic bytes "GBSI" opening an index file.
pub open spec fn spec_magic() -> Seq<u8> {
    seq![0x47u8, 0x42u8, 0x53u8, 0x49u8]
}

/// Format version written in the header.
pub const INDEX_VERSION: u16 = 1;

/// One packed record: position, allele code, flags, name length, name.
pub open spec fn spec_record_bytes(r: GRawSnp) -> Seq<u8> {
    spec_u32_be(r.position) + seq![r.allele_code, r.flags, r.name.len() as u8] + r.name
}

/// All records of one bin, in bin order.
pub open spec fn spec_bin_bytes(bin: Seq<GRawSnp>) -> Seq<u8>
    decreases bin.len(),
{
    if bin.len() == 0 {
        Seq::empty()
    } else {
        spec_bin_bytes(bin.drop_last()) + spec_record_bytes(bin.last())
    }
}

/// Records of the first `n` bins, bin after bin.
pub open spec fn spec_bins_bytes(bins: Seq<Seq<GRawSnp>>, n: int) -> Seq<u8>
    decreases n,
{
    if n <= 0 {
        Seq::empty()
    } else {
        spec_bins_bytes(bins, n - 1) + spec_bin_bytes(bins[n - 1])
    }
}

/// The offset array: entry `i` counts the records of bins before `i`,
/// as a big-endian `u32`; entries `0` to `n` inclusive.
pub open spec fn spec_offsets_bytes(bins: Seq<Seq<GRawSnp>>, n: int) -> Seq<u8>
    decreases n + 1,
{
    if n < 0 {
        Seq::empty()
    } else {
        spec_offsets_bytes(bins, n - 1) + spec_u32_be(spec_store_count(bins.take(n)) as u32)
    }
}

/// One contig section: header, offset array, packed records.
pub open spec fn spec_section_bytes(
    reference_id: u32,
    min_bin: u32,
    bins: Seq<Seq<GRawSnp>>,
) -> Seq<u8> {
    spec_u32_be(reference_id) + spec_u32_be(min_bin) + spec_u32_be(
        (min_bin + bins.len() - 1) as u32,
    ) + spec_u32_be(spec_store_count(bins) as u32) + spec_offsets_bytes(bins, bins.len() as int)
        + spec_bins_bytes(bins, bins.len() as int)
}

impl BinStore {
    /// Serialise this contig's section.
    pub fn finalise(&self, out: &mut Vec<u8>)
        requires
            self.wf(),
            self.bins@.len() > 0,
            usize::MAX as int >= u32::MAX as int + 1,
        ensures
            final(out)@ == old(out)@ + spec_section_bytes(
                self.reference_id,
                self.min_bin,
                self.model(),
            ),
    {
        push_u32_be(out, self.reference_id);
        push_u32_be(out, self.min_bin);
        let nbins = self.bins.len();
        let last_bin = self.min_bin + ((nbins - 1) as u32);
        push_u32_be(out, last_bin);
        push_u32_be(out, self.n_snps);
        // offset array: running record count before each bin boundary
        let ghost header = old(out)@ + spec_u32_be(self.reference_id) + spec_u32_be(self.min_bin)
            + spec_u32_be(last_bin) + spec_u32_be(self.n_snps);
        let mut count: u32 = 0;
        let mut i: usize = 0;
        proof {
            assert(self.model().take(0) =~= Seq::<Seq<GRawSnp>>::empty());
            assert(out@ =~= header + spec_offsets_bytes(self.model(), -1));
        }
        while i < nbins
            invariant
                self.wf(),
                nbins == self.bins@.len(),
                i <= nbins,
                count == spec_store_count(self.model().take(i as int)),
                count <= self.n_snps,
                header == old(out)@ + spec_u32_be(self.reference_id) + spec_u32_be(self.min_bin)
                    + spec_u32_be(last_bin) + spec_u32_be(self.n_snps),
                out@ == header + spec_offsets_bytes(self.model(), i as int - 1),
            decreases nbins - i,
        {
            push_u32_be(out, count);
            proof {
                assert(out@ =~= header + spec_offsets_bytes(self.model(), i as int));
            }
            let blen = self.bins[i].len();
            proof {
                assert(self.model().take(i + 1).drop_last() =~= self.model().take(i as int));
                assert(self.model().take(i + 1).last() == self.model()[i as int]);
                lemma_count_take_le(self.model(), i + 1);
                assert(self.model().take(self.model().len() as int) =~= self.model());
            }
            count = count + (blen as u32);
            i = i + 1;
        }
        // the closing boundary entry holds the total record count
        proof {
            assert(self.model().take(nbins as int) =~= self.model());
        }
        push_u32_be(out, count);
        proof {
            assert(out@ =~= header + spec_offsets_bytes(self.model(), nbins as int));
        }
        // packed records, bin after bin
        let ghost with_offsets = out@;
        let mut b: usize = 0;
        while b < nbins
            invariant
                self.wf(),
                nbins == self.bins@.len(),
                b <= nbins,
                out@ == with_offsets + spec_bins_bytes(self.model(), b as int),
            decreases nbins - b,
        {
            let bin = &self.bins[b];
            let ghost gbin = self.model()[b as int];
            let ghost bin_base = out@;
            let mut k: usize = 0;
            proof {
                assert(gbin.take(0) =~= Seq::<GRawSnp>::empty());
            }
            while k < bin.len()
                invariant
                    self.wf(),
                    nbins == self.bins@.len(),
                    b < nbins,
                    gbin == self.model()[b as int],
                    bin == &self.bins@[b as int],
                    k <= bin@.len(),
                    bin@.len() == gbin.len(),
                    out@ == bin_base + spec_bin_bytes(gbin.take(k as int)),
                decreases bin@.len() - k,
            {
                let r = &bin[k];
                proof {
                    assert(gbin[k as int] == bin@[k as int]@);
                    assert(gbin[k as int].wf());
                }
                push_u32_be(out, r.position);
                out.push(r.allele_code);
                out.push(r.flags);
                out.push(r.name.len() as u8);
                push_bytes(out, &r.name);
                proof {
                    assert(gbin.take(k + 1).drop_last() =~= gbin.take(k as int));
                    assert(gbin.take(k + 1).last() == gbin[k as int]);
                    assert(out@ =~= bin_base + spec_bin_bytes(gbin.take(k + 1)));
                }
                k = k + 1;
            }
            proof {
                assert(gbin.take(gbin.len() as int) =~= gbin);
                assert(out@ =~= with_offsets + spec_bins_bytes(self.model(), b + 1));
            }
            b = b + 1;
        }
        proof {
            assert(out@ =~= old(out)@ + spec_section_bytes(
                self.reference_id,
                self.min_bin,
                self.model(),
            ));
        }
    }
}

/// Counts of prefixes never pass the total.
pub proof fn lemma_count_take_le(bins: Seq<Seq<GRawSnp>>, n: int)
    requires
        0 <= n <= bins.len(),
    ensures
        spec_store_count(bins.take(n)) <= spec_store_count(bins),
        spec_store_count(bins.take(n)) >= 0,
    decreases bins.len() - n,
{
    crate::binstore::lemma_store_count_nonneg(bins.take(n));
    if n == bins.len() {
        assert(bins.take(n) =~= bins);
    } else {
        lemma_count_take_le(bins, n + 1);
        assert(bins.take(n + 1).drop_last() =~= bins.take(n));
        assert(bins.take(n + 1).last() == bins[n]);
    }
}

/// Ghost image of one contig's finished store.
#[verifier::ext_equal]
pub ghost struct GStore {
    pub reference_id: u32,
    pub min_bin: u32,
    pub bins: Seq<Seq<GRawSnp>>,
}

impl BinStore {
    /// The store as ghost data for the file-level specification.
    pub open spec fn gstore(self) -> GStore {
        GStore { reference_id: self.reference_id, min_bin: self.min_bin, bins: self.model() }
    }
}

/// Sort key of table entry `i`: reference id first, table position second.
pub open spec fn spec_contig_key(table: Seq<GContig>, i: int) -> u64 {
    (table[i].reference_id * 0x1_0000_0000 + i) as u64
}

/// The table position a key encodes.
pub open spec fn spec_key_contig(k: u64) -> int {
    (k as int) % 0x1_0000_0000
}

/// Insert a key into a sorted key list, before the first larger key.
pub open spec fn spec_key_insert(s: Seq<u64>, k: u64) -> Seq<u64>
    decreases s.len(),
{
    if s.len() == 0 {
        seq![k]
    } else if s[0] > k {
        seq![k] + s
    } else {
        seq![s[0]] + spec_key_insert(s.drop_first(), k)
    }
}

/// Keys of the first `n` table entries, sorted by insertion.
pub open spec fn spec_sort_keys(table: Seq<GContig>, n: int) -> Seq<u64>
    decreases n,
{
    if n <= 0 {
        Seq::empty()
    } else {
        spec_key_insert(spec_sort_keys(table, n - 1), spec_contig_key(table, n - 1))
    }
}

/// Inserting keeps order and adds exactly the new key.
pub proof fn lemma_key_insert_props(s: Seq<u64>, k: u64)
    requires
        forall|i: int, j: int| 0 <= i < j < s.len() ==> s[i] <= s[j],
    ensures
        spec_key_insert(s, k).len() == s.len() + 1,
        forall|i: int, j: int|
            0 <= i < j < spec_key_insert(s, k).len() ==> spec_key_insert(s, k)[i]
                <= spec_key_insert(s, k)[j],
        forall|p: int|
            0 <= p < spec_key_insert(s, k).len() ==> (#[trigger] spec_key_insert(s, k)[p] == k
                || exists|q: int| 0 <= q < s.len() && spec_key_insert(s, k)[p] == s[q]),
    decreases s.len(),
{
    let res = spec_key_insert(s, k);
    if s.len() == 0 {
    } else if s[0] > k {
        assert(res == seq![k] + s);
        assert(forall|p: int| 1 <= p < res.len() ==> res[p] == s[p - 1]);
        assert(forall|j: int| 0 <= j < s.len() ==> k <= #[trigger] s[j]);
    } else {
        let tail = s.drop_first();
        assert(forall|i: int, j: int| 0 <= i < j < tail.len() ==> tail[i] <= tail[j]) by {
            assert(forall|i: int| 0 <= i < tail.len() ==> tail[i] == s[i + 1]);
        }
        lemma_key_insert_props(tail, k);
        let rest = spec_key_insert(tail, k);
        assert(res == seq![s[0]] + rest);
        assert(forall|p: int| 1 <= p < res.len() ==> res[p] == rest[p - 1]);
        assert(s[0] <= k);
        assert(forall|q: int| 0 <= q < tail.len() ==> s[0] <= #[trigger] tail[q]) by {
            assert(forall|q: int| 0 <= q < tail.len() ==> tail[q] == s[q + 1]);
        }
        assert(forall|p: int| 0 <= p < rest.len() ==> s[0] <= #[trigger] rest[p]);
        assert forall|p: int|
            0 <= p < res.len() implies (#[trigger] res[p] == k || exists|q: int|
            0 <= q < s.len() && res[p] == s[q]) by {
            if p == 0 {
                assert(res[0] == s[0]);
            } else if res[p] != k {
                let q = choose|q: int| 0 <= q < tail.len() && rest[p - 1] == tail[q];
                assert(res[p] == s[q + 1]);
            }
        }
    }
}

/// Skipping a scanned prefix of keys no larger than `k`.
pub proof fn lemma_key_insert_skip(s: Seq<u64>, k: u64, j: int)
    requires
        0 <= j <= s.len(),
        forall|m: int| 0 <= m < j ==> s[m] <= k,
    ensures
        spec_key_insert(s, k) == s.take(j) + spec_key_insert(s.skip(j), k),
    decreases j,
{
    if j == 0 {
        assert(s.skip(0) =~= s);
        assert(s.take(0) + spec_key_insert(s, k) =~= spec_key_insert(s, k));
    } else {
        assert(!(s[0] > k));
        let tail = s.drop_first();
        assert(forall|m: int| 0 <= m < j - 1 ==> #[trigger] tail[m] <= k) by {
            assert(forall|m: int| 0 <= m < tail.len() ==> tail[m] == s[m + 1]);
        }
        lemma_key_insert_skip(tail, k, j - 1);
        assert(tail.skip(j - 1) =~= s.skip(j));
        assert(seq![s[0]] + (tail.take(j - 1) + spec_key_insert(s.skip(j), k)) =~= s.take(j)
            + spec_key_insert(s.skip(j), k)) by {
            assert(tail.take(j - 1) =~= s.take(j).drop_first());
            assert(s.take(j)[0] == s[0]);
        }
    }
}

/// The sorted key list holds exactly the keys of the first `n` entries,
/// in non-decreasing order.
pub proof fn lemma_sort_keys_props(table: Seq<GContig>, n: int)
    requires
        0 <= n <= table.len(),
    ensures
        spec_sort_keys(table, n).len() == n,
        forall|i: int, j: int|
            0 <= i < j < n ==> spec_sort_keys(table, n)[i] <= spec_sort_keys(table, n)[j],
        forall|p: int|
            0 <= p < n ==> exists|i: int|
                0 <= i < n && #[trigger] spec_sort_keys(table, n)[p] == spec_contig_key(table, i),
    decreases n,
{
    if n > 0 {
        lemma_sort_keys_props(table, n - 1);
        lemma_key_insert_props(spec_sort_keys(table, n - 1), spec_contig_key(table, n - 1));
    }
}

/// Sections of the contigs that `order` lists, those with bins only.
pub open spec fn spec_sections_bytes(stores: Seq<GStore>, order: Seq<u64>) -> Seq<u8>
    decreases order.len(),
{
    if order.len() == 0 {
        Seq::empty()
    } else {
        let c = spec_key_contig(order.last());
        spec_sections_bytes(stores, order.drop_last()) + (if stores[c].bins.len() > 0 {
            spec_section_bytes(stores[c].reference_id, stores[c].min_bin, stores[c].bins)
        } else {
            Seq::empty()
        })
    }
}

/// File offsets of the sections that `order` lists; 0 for a contig
/// without a section.
pub open spec fn spec_offset_vals(stores: Seq<GStore>, order: Seq<u64>, base: int) -> Seq<u64>
    decreases order.len(),
{
    if order.len() == 0 {
        Seq::empty()
    } else {
        let c = spec_key_contig(order.last());
        spec_offset_vals(stores, order.drop_last(), base).push(
            if stores[c].bins.len() > 0 {
                (base + spec_sections_bytes(stores, order.drop_last()).len()) as u64
            } else {
                0u64
            },
        )
    }
}

/// Big-endian bytes of a list of `u64` values.
pub open spec fn spec_u64s_bytes(vals: Seq<u64>) -> Seq<u8>
    decreases vals.len(),
{
    if vals.len() == 0 {
        Seq::empty()
    } else {
        spec_u64s_bytes(vals.drop_last()) + spec_u64_be(vals.last())
    }
}

/// One contig table entry.
pub open spec fn spec_table_entry_bytes(c: GContig) -> Seq<u8> {
    spec_u32_be(c.reference_id) + spec_u16_be(c.name.len() as u16) + c.name + spec_u64_be(c.length)
}

/// The first `n` contig table entries.
pub open spec fn spec_table_bytes(table: Seq<GContig>, n: int) -> Seq<u8>
    decreases n,
{
    if n <= 0 {
        Seq::empty()
    } else {
        spec_table_bytes(table, n - 1) + spec_table_entry_bytes(table[n - 1])
    }
}

/// The header and contig table that open an index file.
pub open spec fn spec_head_bytes(table: Seq<GContig>, bin_shift: u8) -> Seq<u8> {
    spec_magic() + spec_u16_be(INDEX_VERSION) + seq![bin_shift, 0u8] + spec_u32_be(
        table.len() as u32,
    ) + spec_table_bytes(table, table.len() as int)
}

/// The whole index file: header, contig table, sections in reference-id
/// order, then the trailer (offset table, CRC of everything before the
/// trailer, and the trailer's start position).
pub open spec fn spec_write_index(table: Seq<GContig>, bin_shift: u8, stores: Seq<GStore>) -> Seq<
    u8,
> {
    let order = spec_sort_keys(table, table.len() as int);
    let body = spec_head_bytes(table, bin_shift) + spec_sections_bytes(stores, order);
    body + spec_u64s_bytes(
        spec_offset_vals(stores, order, spec_head_bytes(table, bin_shift).len() as int),
    ) + spec_u32_be(crate::crc::spec_crc32c(body)) + spec_u64_be(body.len() as u64)
}

/// Serialise the header and contig table.
fn write_head(table: &Vec<crate::types::Contig>, bin_shift: u8) -> (out: Vec<u8>)
    requires
        table@.len() <= u32::MAX,
        forall|i: int| 0 <= i < table@.len() ==> (#[trigger] table.deep_view()[i]).wf(),
    ensures
        out@ == spec_head_bytes(table.deep_view(), bin_shift),
{
    let ghost gt = table.deep_view();
    let n = table.len();
    let mut out: Vec<u8> = Vec::new();
    out.push(0x47);
    out.push(0x42);
    out.push(0x53);
    out.push(0x49);
    push_u16_be(&mut out, INDEX_VERSION);
    out.push(bin_shift);
    out.push(0);
    push_u32_be(&mut out, n as u32);
    let ghost fixed = spec_magic() + spec_u16_be(INDEX_VERSION) + seq![bin_shift, 0u8]
        + spec_u32_be(n as u32);
    proof {
        assert(out@ =~= fixed + spec_table_bytes(gt, 0));
    }
    let mut i: usize = 0;
    while i < n
        invariant
            n == table@.len(),
            gt == table.deep_view(),
            forall|t: int| 0 <= t < gt.len() ==> (#[trigger] gt[t]).wf(),
            i <= n,
            out@ == fixed + spec_table_bytes(gt, i as int),
            fixed == spec_magic() + spec_u16_be(INDEX_VERSION) + seq![bin_shift, 0u8]
                + spec_u32_be(n as u32),
        decreases n - i,
    {
        let c = &table[i];
        proof {
            assert(gt[i as int] == table@[i as int]@);
            assert(gt[i as int].wf());
        }
        push_u32_be(&mut out, c.reference_id);
        push_u16_be(&mut out, c.name.len() as u16);
        push_bytes(&mut out, &c.name);
        push_u64_be(&mut out, c.length);
        proof {
            assert(out@ =~= fixed + spec_table_bytes(gt, i + 1));
        }
        i = i + 1;
    }
    proof {
        assert(out@ =~= spec_head_bytes(gt, bin_shift));
    }
    out
}

/// Work out the section emission order: reference id, then table position.
fn sort_order(table: &Vec<crate::types::Contig>) -> (order: Vec<u64>)
    requires
        table@.len() <= u32::MAX,
    ensures
        order@ == spec_sort_keys(table.deep_view(), table@.len() as int),
        order@.len() == table@.len(),
        forall|q: int|
            0 <= q < order@.len() ==> 0 <= spec_key_contig(#[trigger] order@[q]) < table@.len(),
{
    let ghost gt = table.deep_view();
    let n = table.len();
    let mut order: Vec<u64> = Vec::new();
    let mut t: usize = 0;
    while t < n
        invariant
            n == table@.len(),
            n <= u32::MAX,
            gt == table.deep_view(),
            t <= n,
            order@ == spec_sort_keys(gt, t as int),
        decreases n - t,
    {
        let rid = table[t].reference_id;
        proof {
            assert(gt[t as int] == table@[t as int]@);
        }
        let k: u64 = (rid as u64) * 0x1_0000_0000 + (t as u64);
        assert(k == spec_contig_key(gt, t as int));
        let mut j: usize = 0;
        while j < order.len() && order[j] <= k
            invariant
                j <= order@.len(),
                forall|m: int| 0 <= m < j ==> order@[m] <= k,
            decreases order@.len() - j,
        {
            j = j + 1;
        }
        proof {
            lemma_key_insert_skip(order@, k, j as int);
            if j < order@.len() {
                assert(order@.skip(j as int)[0] == order@[j as int]);
                assert(spec_key_insert(order@.skip(j as int), k) == seq![k] + order@.skip(
                    j as int,
                ));
            } else {
                assert(order@.skip(j as int) =~= Seq::<u64>::empty());
            }
            assert(spec_key_insert(order@, k) =~= order@.insert(j as int, k));
        }
        order.insert(j, k);
        t = t + 1;
    }
    proof {
        lemma_sort_keys_props(gt, n as int);
        assert forall|p: int| 0 <= p < n implies 0 <= spec_key_contig(#[trigger] order@[p]) < n by {
            let ki = choose|ki: int| 0 <= ki < n && order@[p] == spec_contig_key(gt, ki);
            assert(spec_key_contig(spec_contig_key(gt, ki)) == ki) by {
                assert((gt[ki].reference_id * 0x1_0000_0000 + ki) % 0x1_0000_0000 == ki)
                    by (nonlinear_arith)
                    requires
                        0 <= ki < 0x1_0000_0000,
                        0 <= gt[ki].reference_id,
                ;
            }
        }
    }
    order
}

/// Append each listed contig's section; return where each begins.
fn write_sections(out: &mut Vec<u8>, stores: &Vec<BinStore>, order: &Vec<u64>) -> (offs: Vec<u64>)
    requires
        forall|c: int| 0 <= c < stores@.len() ==> (#[trigger] stores@[c]).wf(),
        forall|q: int|
            0 <= q < order@.len() ==> 0 <= spec_key_contig(#[trigger] order@[q]) < stores@.len(),
        usize::MAX as int >= u32::MAX as int + 1,
    ensures
        final(out)@ == old(out)@ + spec_sections_bytes(
            Seq::new(stores@.len(), |c: int| stores@[c].gstore()),
            order@,
        ),
        offs@ == spec_offset_vals(
            Seq::new(stores@.len(), |c: int| stores@[c].gstore()),
            order@,
            old(out)@.len() as int,
        ),
{
    let ghost gstores = Seq::new(stores@.len(), |c: int| stores@[c].gstore());
    let n = order.len();
    let mut offs: Vec<u64> = Vec::new();
    let mut p: usize = 0;
    proof {
        assert(order@.take(0) =~= Seq::<u64>::empty());
    }
    while p < n
        invariant
            n == order@.len(),
            gstores == Seq::new(stores@.len(), |c: int| stores@[c].gstore()),
            forall|c: int| 0 <= c < stores@.len() ==> (#[trigger] stores@[c]).wf(),
            forall|q: int|
                0 <= q < order@.len() ==> 0 <= spec_key_contig(#[trigger] order@[q])
                    < stores@.len(),
            usize::MAX as int >= u32::MAX as int + 1,
            p <= n,
            out@ == old(out)@ + spec_sections_bytes(gstores, order@.take(p as int)),
            offs@ == spec_offset_vals(gstores, order@.take(p as int), old(out)@.len() as int),
        decreases n - p,
    {
        let c = (order[p] % 0x1_0000_0000) as usize;
        proof {
            assert(spec_key_contig(order@[p as int]) == c as int);
            assert(order@.take(p + 1).drop_last() =~= order@.take(p as int));
            assert(order@.take(p + 1).last() == order@[p as int]);
            assert(gstores[c as int] == stores@[c as int].gstore());
        }
        if stores[c].bins.len() > 0 {
            offs.push(out.len() as u64);
            stores[c].finalise(out);
        } else {
            offs.push(0);
        }
        proof {
            assert(out@ =~= old(out)@ + spec_sections_bytes(gstores, order@.take(p + 1)));
            assert(offs@ =~= spec_offset_vals(
                gstores,
                order@.take(p + 1),
                old(out)@.len() as int,
            ));
        }
        p = p + 1;
    }
    proof {
        assert(order@.take(n as int) =~= order@);
    }
    offs
}

/// Serialise the whole index.
pub fn write_index(
    table: &Vec<crate::types::Contig>,
    bin_shift: u8,
    stores: &Vec<BinStore>,
) -> (out: Vec<u8>)
    requires
        stores@.len() == table@.len(),
        table@.len() <= u32::MAX,
        forall|i: int| 0 <= i < table@.len() ==> (#[trigger] table.deep_view()[i]).wf(),
        forall|i: int|
            0 <= i < stores@.len() ==> {
                &&& (#[trigger] stores@[i]).wf()
                &&& stores@[i].bin_shift == bin_shift
                &&& stores@[i].reference_id == table.deep_view()[i].reference_id
            },
        usize::MAX as int >= u32::MAX as int + 1,
    ensures
        out@ == spec_write_index(
            table.deep_view(),
            bin_shift,
            Seq::new(stores@.len(), |i: int| stores@[i].gstore()),
        ),
{
    let ghost gt = table.deep_view();
    let ghost gstores = Seq::new(stores@.len(), |i: int| stores@[i].gstore());
    let mut out = write_head(table, bin_shift);
    let order = sort_order(table);
    let offs = write_sections(&mut out, stores, &order);
    // trailer: offset table, CRC of the body, trailer start
    let trailer_start = out.len() as u64;
    let crc = crate::crc::crc32c(&out);
    let ghost body = out@;
    let n = offs.len();
    let mut q: usize = 0;
    proof {
        assert(offs@.take(0) =~= Seq::<u64>::empty());
    }
    while q < n
        invariant
            n == offs@.len(),
            q <= n,
            out@ == body + spec_u64s_bytes(offs@.take(q as int)),
        decreases n - q,
    {
        push_u64_be(&mut out, offs[q]);
        proof {
            assert(offs@.take(q + 1).drop_last() =~= offs@.take(q as int));
            assert(offs@.take(q + 1).last() == offs@[q as int]);
            assert(out@ =~= body + spec_u64s_bytes(offs@.take(q + 1)));
        }
        q = q + 1;
    }
    proof {
        assert(offs@.take(n as int) =~= offs@);
    }
    push_u32_be(&mut out, crc);
    push_u64_be(&mut out, trailer_start);
    proof {
        assert(out@ =~= spec_write_index(gt, bin_shift, gstores));
    }
    out
}

/// Reassembling a `u32` from its four big-endian bytes gives it back.
proof fn lemma_u32_be_round_trip(x: u32)
    ensures
        (x / 0x100_0000) * 0x100_0000 + ((x / 0x1_0000) % 0x100) * 0x1_0000 + ((x / 0x100) % 0x100)
            * 0x100 + (x % 0x100) == x,
{
    assert((x / 0x100_0000) * 0x100_0000 + ((x / 0x1_0000) % 0x100) * 0x1_0000 + ((x / 0x100)
        % 0x100) * 0x100 + (x % 0x100) == x) by (nonlinear_arith);
}

/// Decode one packed record. Reading back what `spec_record_bytes` wrote
/// yields the written record: one direction of the index round trip, one
/// record at a time.
pub fn read_record(bytes: &Vec<u8>, at: usize, Ghost(g): Ghost<GRawSnp>) -> (r: (
    crate::types::RawSnp,
    usize,
))
    requires
        g.wf(),
        at + 7 + g.name.len() <= bytes@.len(),
        bytes@.subrange(at as int, at + 7 + g.name.len()) == spec_record_bytes(g),
    ensures
        r.0@ == g,
        r.1 == at + 7 + g.name.len(),
{
    let ghost rec = bytes@.subrange(at as int, at + 7 + g.name.len());
    proof {
        assert(rec.len() == 7 + g.name.len());
        assert(forall|k: int| 0 <= k < rec.len() ==> rec[k] == bytes@[at + k]);
        assert(rec[0] == (g.position / 0x100_0000) as u8);
        assert(rec[1] == ((g.position / 0x1_0000) % 0x100) as u8);
        assert(rec[2] == ((g.position / 0x100) % 0x100) as u8);
        assert(rec[3] == (g.position % 0x100) as u8);
        assert(rec[4] == g.allele_code);
        assert(rec[5] == g.flags);
        assert(rec[6] == g.name.len() as u8);
        lemma_u32_be_round_trip(g.position);
        let head = spec_u32_be(g.position) + seq![g.allele_code, g.flags, g.name.len() as u8];
        assert(head.len() == 7);
        assert(spec_record_bytes(g) == head + g.name);
        assert forall|j: int|
            0 <= j < g.name.len() implies bytes@.subrange(at + 7, at + 7 + g.name.len())[j]
            == g.name[j] by {
            assert((head + g.name)[7 + j] == g.name[j]);
            assert(rec[7 + j] == bytes@[at + 7 + j]);
        }
        assert(g.name =~= bytes@.subrange(at + 7, at + 7 + g.name.len()));
    }
    let blen = bytes.len();
    proof {
        assert(at + 7 + g.name.len() <= blen);
    }
    let position: u32 = (bytes[at] as u32) * 0x100_0000 + (bytes[at + 1] as u32) * 0x1_0000 + (
    bytes[at + 2] as u32) * 0x100 + (bytes[at + 3] as u32);
    let allele_code = bytes[at + 4];
    let flags = bytes[at + 5];
    let name_len = bytes[at + 6] as usize;
    let mut name: Vec<u8> = Vec::new();
    let mut k: usize = 0;
    while k < name_len
        invariant
            k <= name_len,
            at + 7 + name_len <= blen,
            blen == bytes@.len(),
            name_len == g.name.len(),
            g.name == bytes@.subrange(at + 7, at + 7 + g.name.len()),
            name@ == g.name.take(k as int),
        decreases name_len - k,
    {
        name.push(bytes[at + 7 + k]);
        proof {
            assert(name@ =~= g.name.take(k + 1));
        }
        k = k + 1;
    }
    proof {
        assert(name@ =~= g.name);
        assert(position == g.position);
    }
    (crate::types::RawSnp { position, name, allele_code, flags }, at + 7 + name_len)
}

} // verus!
