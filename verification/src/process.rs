use vstd::prelude::*;

use crate::binstore::{spec_bin_insert, spec_store_count, BinStore};
use crate::parse::{spec_parse_line, GParse, Parsed, SnpBuilder};
use crate::readerbuf::ReaderBuf;
use crate::registry::ContigRegistry;
use crate::types::{ConfigError, GContig, GRawSnp, SnpBlock, Stats};
use crate::writer::{spec_write_index, write_index, GStore};

verus! {

/// Contents of absolute bin `b` after inserting `records`, in order, into
/// a store whose bin `b` held `start`.
pub open spec fn spec_bin_fold_on(
    start: Seq<GRawSnp>,
    records: Seq<GRawSnp>,
    shift: u8,
    b: int,
) -> Seq<GRawSnp>
    decreases records.len(),
{
    if records.len() == 0 {
        start
    } else {
        let prev = spec_bin_fold_on(start, records.drop_last(), shift, b);
        if ((records.last().position >> shift) as int) == b {
            spec_bin_insert(prev, records.last()).0
        } else {
            prev
        }
    }
}

/// Folding a concatenation folds the two parts in turn.
pub proof fn lemma_bin_fold_on_concat(
    start: Seq<GRawSnp>,
    a: Seq<GRawSnp>,
    c: Seq<GRawSnp>,
    shift: u8,
    b: int,
)
    ensures
        spec_bin_fold_on(start, a + c, shift, b) == spec_bin_fold_on(
            spec_bin_fold_on(start, a, shift, b),
            c,
            shift,
            b,
        ),
    decreases c.len(),
{
    if c.len() == 0 {
        assert(a + c =~= a);
    } else {
        lemma_bin_fold_on_concat(start, a, c.drop_last(), shift, b);
        assert((a + c).drop_last() =~= a + c.drop_last());
        assert((a + c).last() == c.last());
    }
}

/// Smallest bin number among a non-empty record sequence.
pub open spec fn spec_recs_min_bin(records: Seq<GRawSnp>, shift: u8) -> int
    decreases records.len(),
{
    let lb = (records.last().position >> shift) as int;
    if records.len() <= 1 {
        lb
    } else {
        let m = spec_recs_min_bin(records.drop_last(), shift);
        if lb < m {
            lb
        } else {
            m
        }
    }
}

/// Largest bin number among a non-empty record sequence.
pub open spec fn spec_recs_max_bin(records: Seq<GRawSnp>, shift: u8) -> int
    decreases records.len(),
{
    let lb = (records.last().position >> shift) as int;
    if records.len() <= 1 {
        lb
    } else {
        let m = spec_recs_max_bin(records.drop_last(), shift);
        if lb > m {
            lb
        } else {
            m
        }
    }
}

/// The extremes are bounds and are attained.
pub proof fn lemma_recs_bin_bounds(records: Seq<GRawSnp>, shift: u8)
    requires
        records.len() > 0,
    ensures
        forall|i: int|
            0 <= i < records.len() ==> spec_recs_min_bin(records, shift) <= ((
            #[trigger] records[i]).position >> shift) as int <= spec_recs_max_bin(records, shift),
        exists|i: int|
            0 <= i < records.len() && ((#[trigger] records[i]).position >> shift) as int
                == spec_recs_min_bin(records, shift),
        exists|i: int|
            0 <= i < records.len() && ((#[trigger] records[i]).position >> shift) as int
                == spec_recs_max_bin(records, shift),
    decreases records.len(),
{
    let lb = ((records.last().position >> shift) as int);
    if records.len() == 1 {
        assert(((records[0]).position >> shift) as int == spec_recs_min_bin(records, shift));
        assert(((records[0]).position >> shift) as int == spec_recs_max_bin(records, shift));
    } else {
        let sub = records.drop_last();
        lemma_recs_bin_bounds(sub, shift);
        assert(forall|i: int| 0 <= i < records.len() - 1 ==> #[trigger] records[i] == sub[i]);
        assert(records[records.len() - 1] == records.last());
        if lb < spec_recs_min_bin(sub, shift) {
            assert(((records[records.len() - 1]).position >> shift) as int == spec_recs_min_bin(
                records,
                shift,
            ));
        } else {
            let j = choose|i: int|
                0 <= i < sub.len() && ((#[trigger] sub[i]).position >> shift) as int
                    == spec_recs_min_bin(sub, shift);
            assert(((records[j]).position >> shift) as int == spec_recs_min_bin(records, shift));
        }
        if lb > spec_recs_max_bin(sub, shift) {
            assert(((records[records.len() - 1]).position >> shift) as int == spec_recs_max_bin(
                records,
                shift,
            ));
        } else {
            let j = choose|i: int|
                0 <= i < sub.len() && ((#[trigger] sub[i]).position >> shift) as int
                    == spec_recs_max_bin(sub, shift);
            assert(((records[j]).position >> shift) as int == spec_recs_max_bin(records, shift));
        }
    }
}

/// Extremes of a concatenation of non-empty parts.
pub proof fn lemma_recs_bin_concat(a: Seq<GRawSnp>, c: Seq<GRawSnp>, shift: u8)
    requires
        a.len() > 0,
        c.len() > 0,
    ensures
        spec_recs_min_bin(a + c, shift) == if spec_recs_min_bin(a, shift) <= spec_recs_min_bin(
            c,
            shift,
        ) {
            spec_recs_min_bin(a, shift)
        } else {
            spec_recs_min_bin(c, shift)
        },
        spec_recs_max_bin(a + c, shift) == if spec_recs_max_bin(a, shift) >= spec_recs_max_bin(
            c,
            shift,
        ) {
            spec_recs_max_bin(a, shift)
        } else {
            spec_recs_max_bin(c, shift)
        },
    decreases c.len(),
{
    if c.len() == 1 {
        assert((a + c).drop_last() =~= a);
        assert((a + c).last() == c.last());
    } else {
        lemma_recs_bin_concat(a, c.drop_last(), shift);
        assert((a + c).drop_last() =~= a + c.drop_last());
        assert((a + c).last() == c.last());
    }
}

/// From position extremes to bin extremes: the bin of the smallest
/// position is the smallest bin, and likewise for the largest.
pub proof fn lemma_recs_bins_from_positions(records: Seq<GRawSnp>, shift: u8, mn: u32, mx: u32)
    requires
        records.len() > 0,
        shift < 32,
        forall|i: int| 0 <= i < records.len() ==> mn <= (#[trigger] records[i]).position <= mx,
        exists|i: int| 0 <= i < records.len() && (#[trigger] records[i]).position == mn,
        exists|i: int| 0 <= i < records.len() && (#[trigger] records[i]).position == mx,
    ensures
        spec_recs_min_bin(records, shift) == (mn >> shift) as int,
        spec_recs_max_bin(records, shift) == (mx >> shift) as int,
{
    lemma_recs_bin_bounds(records, shift);
    assert forall|i: int|
        0 <= i < records.len() implies ((mn >> shift) as int) <= ((
    #[trigger] records[i]).position >> shift) as int <= ((mx >> shift) as int) by {
        crate::binstore::lemma_shr_le(mn, records[i].position, shift);
        crate::binstore::lemma_shr_le(records[i].position, mx, shift);
    }
    let i1 = choose|i: int| 0 <= i < records.len() && (#[trigger] records[i]).position == mn;
    let i2 = choose|i: int| 0 <= i < records.len() && (#[trigger] records[i]).position == mx;
    let j1 = choose|i: int|
        0 <= i < records.len() && ((#[trigger] records[i]).position >> shift) as int
            == spec_recs_min_bin(records, shift);
    let j2 = choose|i: int|
        0 <= i < records.len() && ((#[trigger] records[i]).position >> shift) as int
            == spec_recs_max_bin(records, shift);
    assert(spec_recs_min_bin(records, shift) <= ((records[i1].position >> shift) as int));
    assert(((mn >> shift) as int) <= ((records[j1].position >> shift) as int));
    assert(spec_recs_max_bin(records, shift) >= ((records[i2].position >> shift) as int));
    assert(((mx >> shift) as int) >= ((records[j2].position >> shift) as int));
}

/// Insert every record of one block into the store, in block order.
/// The caller has already grown the store to cover the block.
pub fn store_snp_block(sb: &SnpBlock, data: &mut BinStore) -> (dups: usize)
    requires
        old(data).wf(),
        sb.wf(),
        forall|i: int|
            0 <= i < sb.snps@.len() ==> old(data).covers_bin(
                ((#[trigger] sb.snps.deep_view()[i]).position >> old(data).bin_shift) as int,
            ),
        old(data).n_snps + sb.snps@.len() <= u32::MAX,
    ensures
        final(data).wf(),
        final(data).reference_id == old(data).reference_id,
        final(data).bin_shift == old(data).bin_shift,
        final(data).min_bin == old(data).min_bin,
        final(data).bins@.len() == old(data).bins@.len(),
        forall|b: int| #[trigger]
            final(data).bin_at(b) == spec_bin_fold_on(
                old(data).bin_at(b),
                sb.snps.deep_view(),
                old(data).bin_shift,
                b,
            ),
        dups <= sb.snps@.len(),
        final(data).n_snps == old(data).n_snps + sb.snps@.len() - dups,
    {
        let ghost recs = sb.snps.deep_view();
        let ghost shift = data.bin_shift;
        let n = sb.snps.len();
        let mut dups: usize = 0;
        let mut k: usize = 0;
        proof {
            assert(forall|b: int| #[trigger]
                data.bin_at(b) == spec_bin_fold_on(old(data).bin_at(b), recs.take(0), shift, b));
        }
        while k < n
            invariant
                data.wf(),
                sb.wf(),
                recs == sb.snps.deep_view(),
                shift == data.bin_shift,
                n == sb.snps@.len(),
                k <= n,
                dups <= k,
                data.reference_id == old(data).reference_id,
                data.bin_shift == old(data).bin_shift,
                data.min_bin == old(data).min_bin,
                data.bins@.len() == old(data).bins@.len(),
                forall|i: int|
                    0 <= i < sb.snps@.len() ==> old(data).covers_bin(
                        ((#[trigger] sb.snps.deep_view()[i]).position >> old(
                            data,
                        ).bin_shift) as int,
                    ),
                old(data).n_snps + sb.snps@.len() <= u32::MAX,
                data.n_snps == old(data).n_snps + k - dups,
                forall|b: int| #[trigger]
                    data.bin_at(b) == spec_bin_fold_on(
                        old(data).bin_at(b),
                        recs.take(k as int),
                        shift,
                        b,
                    ),
            decreases n - k,
        {
            let snp = crate::binstore::copy_snp(&sb.snps[k]);
            proof {
                assert(recs[k as int] == sb.snps@[k as int]@);
                assert(recs[k as int].wf());
            }
            let ghost pre = *data;
            let ghost gb = (snp.position >> shift) as int;
            let dup = data.add(snp);
            if dup {
                dups = dups + 1;
            }
            proof {
                assert(recs.take(k + 1).drop_last() =~= recs.take(k as int));
                assert(recs.take(k + 1).last() == recs[k as int]);
                assert forall|b: int| #[trigger]
                    data.bin_at(b) == spec_bin_fold_on(
                        old(data).bin_at(b),
                        recs.take(k + 1),
                        shift,
                        b,
                    ) by {
                    if b == gb {
                        assert(data.bin_at(b) == spec_bin_insert(pre.bin_at(b), recs[k as int]).0);
                    } else {
                        assert(data.bin_at(b) == pre.bin_at(b));
                    }
                }
            }
            k = k + 1;
        }
        proof {
            assert(recs.take(n as int) =~= recs);
        }
        dups
    }

/// Grow the store over the block's positions, then insert its records.
pub fn ingest_block(data: &mut BinStore, sb: &SnpBlock) -> (dups: usize)
    requires
        old(data).wf(),
        sb.wf(),
        old(data).n_snps + sb.snps@.len() <= u32::MAX,
        usize::MAX as int >= u32::MAX as int + 1,
    ensures
        final(data).wf(),
        final(data).reference_id == old(data).reference_id,
        final(data).bin_shift == old(data).bin_shift,
        final(data).bins@.len() > 0,
        forall|b: int| #[trigger]
            final(data).bin_at(b) == spec_bin_fold_on(
                old(data).bin_at(b),
                sb.snps.deep_view(),
                old(data).bin_shift,
                b,
            ),
        dups <= sb.snps@.len(),
        final(data).n_snps == old(data).n_snps + sb.snps@.len() - dups,
        final(data).min_bin as int == if old(data).bins@.len() == 0 {
            spec_recs_min_bin(sb.snps.deep_view(), old(data).bin_shift)
        } else if old(data).min_bin <= spec_recs_min_bin(sb.snps.deep_view(), old(data).bin_shift) {
            old(data).min_bin as int
        } else {
            spec_recs_min_bin(sb.snps.deep_view(), old(data).bin_shift)
        },
        final(data).min_bin + final(data).bins@.len() - 1 == if old(data).bins@.len() == 0 {
            spec_recs_max_bin(sb.snps.deep_view(), old(data).bin_shift)
        } else if old(data).min_bin + old(data).bins@.len() - 1 >= spec_recs_max_bin(
            sb.snps.deep_view(),
            old(data).bin_shift,
        ) {
            old(data).min_bin + old(data).bins@.len() - 1
        } else {
            spec_recs_max_bin(sb.snps.deep_view(), old(data).bin_shift)
        },
    {
        let mm = sb.min_max();
        let (mn, mx) = match mm {
            Some(p) => p,
            None => {
                proof {
                    assert(false);
                }
                (0, 0)
            },
        };
        let ghost recs = sb.snps.deep_view();
        let ghost shift = data.bin_shift;
        proof {
            assert(forall|i: int|
                0 <= i < sb.snps@.len() ==> #[trigger] recs[i] == sb.snps@[i]@);
            let i1 = choose|i: int|
                0 <= i < sb.snps@.len() && (#[trigger] sb.snps@[i])@.position == mn;
            let i2 = choose|i: int|
                0 <= i < sb.snps@.len() && (#[trigger] sb.snps@[i])@.position == mx;
            assert((#[trigger] recs[i1]).position == mn);
            assert((#[trigger] recs[i2]).position == mx);
            lemma_recs_bins_from_positions(recs, shift, mn, mx);
            lemma_recs_bin_bounds(recs, shift);
        }
        data.check_bins(mn, mx);
        proof {
            assert forall|i: int|
                0 <= i < sb.snps@.len() implies data.covers_bin(
                ((#[trigger] recs[i]).position >> shift) as int,
            ) by {
                assert(data.covers_bin((mn >> shift) as int));
                assert(data.covers_bin((mx >> shift) as int));
                assert((mn >> shift) as int <= ((recs[i]).position >> shift) as int <= (mx
                    >> shift) as int);
            }
        }
        store_snp_block(sb, data)
    }

/// All input lines, file after file, in the order given.
pub open spec fn spec_all_lines(files: Seq<Seq<Seq<u8>>>) -> Seq<Seq<u8>>
    decreases files.len(),
{
    if files.len() == 0 {
        Seq::empty()
    } else {
        spec_all_lines(files.drop_last()) + files.last()
    }
}

/// The records of contig `c` that the lines keep, in line order.
pub open spec fn spec_kept_records(
    lines: Seq<Seq<u8>>,
    table: Seq<GContig>,
    pmap: Seq<(Seq<u8>, Seq<u8>)>,
    c: int,
) -> Seq<GRawSnp>
    decreases lines.len(),
{
    if lines.len() == 0 {
        Seq::empty()
    } else {
        let prev = spec_kept_records(lines.drop_last(), table, pmap, c);
        match spec_parse_line(lines.last(), table, pmap) {
            GParse::Snp { snp, contig } => if contig == c {
                prev.push(snp)
            } else {
                prev
            },
            _ => prev,
        }
    }
}

/// How many lines are malformed records.
pub open spec fn spec_n_malformed(
    lines: Seq<Seq<u8>>,
    table: Seq<GContig>,
    pmap: Seq<(Seq<u8>, Seq<u8>)>,
) -> int
    decreases lines.len(),
{
    if lines.len() == 0 {
        0
    } else {
        spec_n_malformed(lines.drop_last(), table, pmap) + (if spec_parse_line(
            lines.last(),
            table,
            pmap,
        ) == GParse::Malformed {
            1int
        } else {
            0int
        })
    }
}

/// How many lines name a contig outside the table.
pub open spec fn spec_n_unknown(
    lines: Seq<Seq<u8>>,
    table: Seq<GContig>,
    pmap: Seq<(Seq<u8>, Seq<u8>)>,
) -> int
    decreases lines.len(),
{
    if lines.len() == 0 {
        0
    } else {
        spec_n_unknown(lines.drop_last(), table, pmap) + (if spec_parse_line(
            lines.last(),
            table,
            pmap,
        ) == GParse::UnknownContig {
            1int
        } else {
            0int
        })
    }
}

/// How many lines parse to a record of a known contig.
pub open spec fn spec_n_hits(
    lines: Seq<Seq<u8>>,
    table: Seq<GContig>,
    pmap: Seq<(Seq<u8>, Seq<u8>)>,
) -> int
    decreases lines.len(),
{
    if lines.len() == 0 {
        0
    } else {
        spec_n_hits(lines.drop_last(), table, pmap) + (match spec_parse_line(
            lines.last(),
            table,
            pmap,
        ) {
            GParse::Snp { snp, contig } => 1int,
            _ => 0int,
        })
    }
}

/// The counters never pass the number of lines, and a contig's kept
/// records never outnumber the parsed records.
pub proof fn lemma_counts_bounded(
    lines: Seq<Seq<u8>>,
    table: Seq<GContig>,
    pmap: Seq<(Seq<u8>, Seq<u8>)>,
    c: int,
)
    ensures
        0 <= spec_n_malformed(lines, table, pmap) <= lines.len(),
        0 <= spec_n_unknown(lines, table, pmap) <= lines.len(),
        0 <= spec_n_hits(lines, table, pmap) <= lines.len(),
        0 <= spec_kept_records(lines, table, pmap, c).len() <= spec_n_hits(lines, table, pmap),
    decreases lines.len(),
{
    if lines.len() > 0 {
        lemma_counts_bounded(lines.drop_last(), table, pmap, c);
    }
}

/// The finished store of one contig: the hull of the records' bins, each
/// bin the fold of the kept records that fall in it.
pub open spec fn spec_gstore_of(rid: u32, shift: u8, recs: Seq<GRawSnp>) -> GStore {
    if recs.len() == 0 {
        GStore { reference_id: rid, min_bin: 0, bins: Seq::empty() }
    } else {
        let mn = spec_recs_min_bin(recs, shift);
        let mx = spec_recs_max_bin(recs, shift);
        GStore {
            reference_id: rid,
            min_bin: mn as u32,
            bins: Seq::new(
                (mx - mn + 1) as nat,
                |i: int| spec_bin_fold_on(Seq::empty(), recs, shift, mn + i),
            ),
        }
    }
}

/// The stores of every contig of the table.
pub open spec fn spec_build_stores(
    table: Seq<GContig>,
    pmap: Seq<(Seq<u8>, Seq<u8>)>,
    shift: u8,
    lines: Seq<Seq<u8>>,
) -> Seq<GStore> {
    Seq::new(
        table.len(),
        |c: int| spec_gstore_of(table[c].reference_id, shift, spec_kept_records(lines, table, pmap, c)),
    )
}

/// The bytes of the index built from the given inputs. Neither the thread
/// count nor the reader-buffer threshold appears here: they cannot change
/// the output.
pub open spec fn spec_build_bytes(
    table: Seq<GContig>,
    pmap: Seq<(Seq<u8>, Seq<u8>)>,
    shift: u8,
    files: Seq<Seq<Seq<u8>>>,
) -> Seq<u8> {
    spec_write_index(table, shift, spec_build_stores(table, pmap, shift, spec_all_lines(files)))
}

/// Total records kept over the first `n` contigs.
pub open spec fn spec_kept_count(
    table: Seq<GContig>,
    pmap: Seq<(Seq<u8>, Seq<u8>)>,
    shift: u8,
    lines: Seq<Seq<u8>>,
    n: int,
) -> int
    decreases n,
{
    if n <= 0 {
        0
    } else {
        spec_kept_count(table, pmap, shift, lines, n - 1) + spec_store_count(
            spec_gstore_of(
                table[n - 1].reference_id,
                shift,
                spec_kept_records(lines, table, pmap, n - 1),
            ).bins,
        )
    }
}

/// Stored record counts over the first `n` stores.
pub open spec fn spec_sum_snps(stores: Seq<BinStore>, n: int) -> int
    decreases n,
{
    if n <= 0 {
        0
    } else {
        spec_sum_snps(stores, n - 1) + stores[n - 1].n_snps
    }
}

/// Changing one store changes the sum by that store's difference.
pub proof fn lemma_sum_snps_update(stores: Seq<BinStore>, n: int, c: int, st: BinStore)
    requires
        0 <= c < stores.len(),
        n <= stores.len(),
    ensures
        spec_sum_snps(stores.update(c, st), n) == if c < n {
            spec_sum_snps(stores, n) - stores[c].n_snps + st.n_snps
        } else {
            spec_sum_snps(stores, n)
        },
    decreases n,
{
    if n > 0 {
        lemma_sum_snps_update(stores, n - 1, c, st);
    }
}

/// When every store's count matches its contig's kept count, the sums
/// agree.
pub proof fn lemma_sum_snps_matches(
    stores: Seq<BinStore>,
    table: Seq<GContig>,
    pmap: Seq<(Seq<u8>, Seq<u8>)>,
    shift: u8,
    lines: Seq<Seq<u8>>,
    n: int,
)
    requires
        n <= stores.len(),
        forall|c: int|
            0 <= c < n ==> (#[trigger] stores[c]).n_snps == spec_store_count(
                spec_gstore_of(
                    table[c].reference_id,
                    shift,
                    spec_kept_records(lines, table, pmap, c),
                ).bins,
            ),
    ensures
        spec_sum_snps(stores, n) == spec_kept_count(table, pmap, shift, lines, n),
    decreases n,
{
    if n > 0 {
        lemma_sum_snps_matches(stores, table, pmap, shift, lines, n - 1);
    }
}

/// Every kept record is well formed: its name was truncated at parse time.
pub proof fn lemma_kept_wf(
    lines: Seq<Seq<u8>>,
    table: Seq<GContig>,
    pmap: Seq<(Seq<u8>, Seq<u8>)>,
    c: int,
)
    ensures
        forall|k: int|
            0 <= k < spec_kept_records(lines, table, pmap, c).len() ==> (
            #[trigger] spec_kept_records(lines, table, pmap, c)[k]).wf(),
    decreases lines.len(),
{
    if lines.len() > 0 {
        lemma_kept_wf(lines.drop_last(), table, pmap, c);
        let res = spec_kept_records(lines, table, pmap, c);
        let prev = spec_kept_records(lines.drop_last(), table, pmap, c);
        match spec_parse_line(lines.last(), table, pmap) {
            GParse::Snp { snp, contig } => {
                if contig == c {
                    let fields = crate::parse::spec_split_tabs(lines.last());
                    assert(snp == crate::parse::spec_snp_of_fields(fields));
                    if fields[3].len() > crate::types::MAX_NAME_BYTES as int {
                        assert(snp.name == fields[3].take(crate::types::MAX_NAME_BYTES as int));
                        assert(snp.name.len() == crate::types::MAX_NAME_BYTES);
                    }
                    assert(snp.wf());
                    assert(res == prev.push(snp));
                    assert(forall|k: int| 0 <= k < prev.len() ==> #[trigger] res[k] == prev[k]);
                    assert(res[res.len() - 1] == snp);
                } else {
                    assert(res == prev);
                }
            },
            _ => {
                assert(res == prev);
            },
        }
    }
}

/// A row of empty stores holds nothing.
pub proof fn lemma_sum_snps_zero(stores: Seq<BinStore>, n: int)
    requires
        n <= stores.len(),
        forall|c: int| 0 <= c < n ==> (#[trigger] stores[c]).n_snps == 0,
    ensures
        spec_sum_snps(stores, n) == 0,
    decreases n,
{
    if n > 0 {
        lemma_sum_snps_zero(stores, n - 1);
    }
}

/// What the driver knows of one contig while lines stream in: the bucket
/// holds a suffix of the kept records; everything before the suffix has
/// been folded into the store; the store's extent is the hull of the
/// delivered records' bins.
pub open spec fn spec_contig_inv(
    store: BinStore,
    bucket: Seq<GRawSnp>,
    kept: Seq<GRawSnp>,
    shift: u8,
    rid: u32,
) -> bool {
    let d = kept.len() - bucket.len();
    &&& store.wf()
    &&& store.reference_id == rid
    &&& store.bin_shift == shift
    &&& bucket.len() <= kept.len()
    &&& bucket == kept.skip(d)
    &&& forall|b: int| #[trigger]
        store.bin_at(b) == spec_bin_fold_on(Seq::empty(), kept.take(d), shift, b)
    &&& (store.bins@.len() > 0 <==> d > 0)
    &&& (d == 0 ==> store.min_bin == 0)
    &&& (d > 0 ==> store.min_bin as int == spec_recs_min_bin(kept.take(d), shift) && store.min_bin
        + store.bins@.len() - 1 == spec_recs_max_bin(kept.take(d), shift))
    &&& store.n_snps <= d
}

/// Copy one line.
fn copy_line(line: &Vec<u8>) -> (r: Vec<u8>)
    ensures
        r@ == line@,
{
    let mut out: Vec<u8> = Vec::new();
    crate::bytes::push_bytes(&mut out, line);
    proof {
        assert(out@ =~= line@);
    }
    out
}

/// All input lines as one list, file after file.
pub fn flatten_lines(files: &Vec<Vec<Vec<u8>>>) -> (lines: Vec<Vec<u8>>)
    ensures
        lines.deep_view() == spec_all_lines(files.deep_view()),
{
    let ghost gf = files.deep_view();
    let mut lines: Vec<Vec<u8>> = Vec::new();
    let mut f: usize = 0;
    proof {
        assert(gf.take(0) =~= Seq::<Seq<Seq<u8>>>::empty());
        assert(lines.deep_view() =~= spec_all_lines(gf.take(0)));
    }
    while f < files.len()
        invariant
            gf == files.deep_view(),
            f <= files@.len(),
            lines.deep_view() == spec_all_lines(gf.take(f as int)),
        decreases files@.len() - f,
    {
        let file = &files[f];
        let ghost gfile = gf[f as int];
        proof {
            assert(gf[f as int] == files@[f as int].deep_view());
            assert(gf.take(f + 1).drop_last() =~= gf.take(f as int));
            assert(gf.take(f + 1).last() == gf[f as int]);
        }
        let mut l: usize = 0;
        while l < file.len()
            invariant
                gf == files.deep_view(),
                f < files@.len(),
                file == &files@[f as int],
                gfile == gf[f as int],
                l <= file@.len(),
                gfile.len() == file@.len(),
                lines.deep_view() == spec_all_lines(gf.take(f as int)) + gfile.take(l as int),
            decreases file@.len() - l,
        {
            let ghost pre = lines.deep_view();
            lines.push(copy_line(&file[l]));
            proof {
                assert(gfile[l as int] == file@[l as int]@);
                assert(lines.deep_view() =~~= pre.push(gfile[l as int]));
                assert(lines.deep_view() =~~= spec_all_lines(gf.take(f as int)) + gfile.take(
                    l + 1,
                ));
            }
            l = l + 1;
        }
        proof {
            assert(gfile.take(gfile.len() as int) =~= gfile);
            assert(lines.deep_view() =~= spec_all_lines(gf.take(f + 1)));
        }
        f = f + 1;
    }
    proof {
        assert(gf.take(gf.len() as int) =~= gf);
    }
    lines
}

/// Hand one flushed block to its contig's store: grow, insert, account.
/// `kept` is the contig's whole kept-record sequence up to and including
/// this block; the block carries exactly its tail.
fn deliver_block(
    stores: &mut Vec<BinStore>,
    c: usize,
    block: SnpBlock,
    Ghost(kept): Ghost<Seq<GRawSnp>>,
    Ghost(shift): Ghost<u8>,
    Ghost(rid): Ghost<u32>,
) -> (dups: usize)
    requires
        (c as int) < old(stores)@.len(),
        block.wf(),
        block.contig == c,
        spec_contig_inv(old(stores)@[c as int], block.snps.deep_view(), kept, shift, rid),
        kept.len() <= u32::MAX,
        usize::MAX as int >= u32::MAX as int + 1,
    ensures
        final(stores)@.len() == old(stores)@.len(),
        forall|cc: int|
            0 <= cc < old(stores)@.len() && cc != c as int ==> #[trigger] final(stores)@[cc]
                == old(stores)@[cc],
        spec_contig_inv(final(stores)@[c as int], Seq::empty(), kept, shift, rid),
        dups <= block.snps@.len(),
        final(stores)@[c as int].n_snps == old(stores)@[c as int].n_snps + block.snps@.len()
            - dups,
{
    let ghost gblock = block.snps.deep_view();
    let ghost d = kept.len() - gblock.len();
    let mut st = stores.remove(c);
    let ghost pre = st;
    proof {
        assert(st.n_snps + block.snps@.len() <= u32::MAX);
    }
    let dups = ingest_block(&mut st, &block);
    proof {
        assert(kept.take(d as int) + gblock =~= kept);
        assert forall|b: int| #[trigger]
            st.bin_at(b) == spec_bin_fold_on(
                Seq::empty(),
                kept.take(kept.len() as int),
                shift,
                b,
            ) by {
            lemma_bin_fold_on_concat(Seq::empty(), kept.take(d as int), gblock, shift, b);
            assert(kept.take(kept.len() as int) =~= kept);
        }
        assert(gblock.len() > 0);
        if d == 0 {
            assert(gblock =~= kept);
        } else {
            lemma_recs_bin_concat(kept.take(d as int), gblock, shift);
        }
        assert(kept.take(kept.len() as int) =~= kept);
        assert(st.min_bin as int == spec_recs_min_bin(kept, shift));
        assert(st.min_bin + st.bins@.len() - 1 == spec_recs_max_bin(kept, shift));
        assert(Seq::<GRawSnp>::empty() =~= kept.skip(kept.len() as int));
    }
    stores.insert(c, st);
    proof {
        assert(stores@ =~= old(stores)@.update(c as int, st));
    }
    dups
}

/// The shared cursor over the input-file list: each call hands out the
/// next unread file, as its position in the list.
pub struct InputFiles {
    pub idx: usize,
    pub files: Vec<Vec<u8>>,
}

impl InputFiles {
    pub fn new(files: Vec<Vec<u8>>) -> (r: InputFiles)
        ensures
            r.idx == 0,
            r.files@ == files@,
    {
        InputFiles { idx: 0, files }
    }

    /// The position of the next unread file, or nothing when all files
    /// have been handed out.
    pub fn next_file(&mut self) -> (r: Option<usize>)
        ensures
            final(self).files@ == old(self).files@,
            match r {
                Some(i) => i == old(self).idx && (i as int) < old(self).files@.len()
                    && final(self).idx == old(self).idx + 1,
                None => old(self).idx >= old(self).files@.len()
                    && final(self).idx == old(self).idx,
            },
    {
        if self.idx < self.files.len() {
            let i = self.idx;
            self.idx = self.idx + 1;
            Some(i)
        } else {
            None
        }
    }
}

/// What a build needs to know: worker counts, the reader-buffer flush
/// threshold, the bin width, and the interned contig table with its
/// name rewrite rules.
pub struct IndexConfig {
    pub threads: usize,
    pub block_limit: usize,
    pub bin_shift: u8,
    pub registry: ContigRegistry,
}

impl IndexConfig {
    pub open spec fn wf(self) -> bool {
        &&& self.registry.wf()
        &&& self.registry.table().len() <= u32::MAX
        &&& self.bin_shift < 32
        &&& self.block_limit >= 1
    }
}

/// Build the whole index from in-memory input files (lists of lines).
/// On success the returned bytes are exactly the serialised index of the
/// kept records, and the statistics account for every record read.
/// `threads` and `block_limit` never change the output: the bytes are a
/// function of the contig table, the rewrite rules, the bin shift and the
/// input lines alone.
#[verifier::rlimit(100)]
pub fn build_index(cfg: &IndexConfig, files: &Vec<Vec<Vec<u8>>>) -> (r: Result<
    (Vec<u8>, Stats),
    ConfigError,
>)
    requires
        cfg.wf(),
        spec_all_lines(files.deep_view()).len() <= u32::MAX,
        usize::MAX as int >= u32::MAX as int + 1,
    ensures
        r == Err::<(Vec<u8>, Stats), ConfigError>(ConfigError::ZeroThreads) <==> cfg.threads == 0,
        r == Err::<(Vec<u8>, Stats), ConfigError>(ConfigError::EmptyContigTable) <==> (cfg.threads
            >= 1 && cfg.registry.table().len() == 0),
        match r {
            Ok(p) => {
                &&& cfg.threads >= 1
                &&& cfg.registry.table().len() > 0
                &&& p.0@ == spec_build_bytes(
                    cfg.registry.table(),
                    cfg.registry.pmap(),
                    cfg.bin_shift,
                    files.deep_view(),
                )
                &&& p.1.n_files == files@.len()
                &&& p.1.n_malformed == spec_n_malformed(
                    spec_all_lines(files.deep_view()),
                    cfg.registry.table(),
                    cfg.registry.pmap(),
                )
                &&& p.1.n_skipped_unknown_contig == spec_n_unknown(
                    spec_all_lines(files.deep_view()),
                    cfg.registry.table(),
                    cfg.registry.pmap(),
                )
                &&& p.1.n_records_read == p.1.n_malformed + p.1.n_skipped_unknown_contig
                    + spec_n_hits(
                    spec_all_lines(files.deep_view()),
                    cfg.registry.table(),
                    cfg.registry.pmap(),
                )
                &&& p.1.n_records_kept == spec_kept_count(
                    cfg.registry.table(),
                    cfg.registry.pmap(),
                    cfg.bin_shift,
                    spec_all_lines(files.deep_view()),
                    cfg.registry.table().len() as int,
                )
                &&& p.1.n_records_kept + p.1.n_duplicates == spec_n_hits(
                    spec_all_lines(files.deep_view()),
                    cfg.registry.table(),
                    cfg.registry.pmap(),
                )
                &&& p.1.balanced()
            },
            Err(e) => e == ConfigError::ZeroThreads || e == ConfigError::EmptyContigTable,
        },
{
    if cfg.threads == 0 {
        return Err(ConfigError::ZeroThreads);
    }
    if cfg.registry.len() == 0 {
        return Err(ConfigError::EmptyContigTable);
    }
    let lines = flatten_lines(files);
    let (bytes, stats) = build_from_lines(cfg, lines, files.len() as u64);
    Ok((bytes, stats))
}
/// One empty store per contig, an empty reader buffer, a fresh builder.
fn init_run(cfg: &IndexConfig) -> (r: (Vec<BinStore>, ReaderBuf, SnpBuilder))
    requires
        cfg.wf(),
    ensures
        r.0@.len() == cfg.registry.table().len(),
        r.1.wf(),
        r.1.limit == cfg.block_limit,
        r.1.model().len() == cfg.registry.table().len(),
        r.2.wf(cfg.registry),
        spec_sum_snps(r.0@, cfg.registry.table().len() as int) == 0,
        spec_store_count(r.1.model()) == 0,
        forall|c: int|
            0 <= c < cfg.registry.table().len() ==> spec_contig_inv(
                #[trigger] r.0@[c],
                r.1.model()[c],
                Seq::empty(),
                cfg.bin_shift,
                cfg.registry.table()[c].reference_id,
            ),
{
    let n = cfg.registry.len();
    let ghost table = cfg.registry.table();
    let ghost shift = cfg.bin_shift;
    // one store per contig
    let mut stores: Vec<BinStore> = Vec::new();
    let mut c0: usize = 0;
    while c0 < n
        invariant
            n == cfg.registry.table().len(),
            table == cfg.registry.table(),
            shift == cfg.bin_shift,
            cfg.wf(),
            c0 <= n,
            stores@.len() == c0,
            forall|c: int|
                0 <= c < c0 ==> {
                    &&& (#[trigger] stores@[c]).wf()
                    &&& stores@[c].reference_id == table[c].reference_id
                    &&& stores@[c].bin_shift == shift
                    &&& stores@[c].bins@.len() == 0
                    &&& stores@[c].min_bin == 0
                    &&& stores@[c].n_snps == 0
                },
        decreases n - c0,
    {
        let rid = cfg.registry.contigs[c0].reference_id;
        proof {
            assert(table[c0 as int] == cfg.registry.contigs@[c0 as int]@);
        }
        let ghost pre = stores@;
        stores.push(BinStore::new(rid, cfg.bin_shift));
        proof {
            assert(forall|c: int| 0 <= c < c0 ==> #[trigger] stores@[c] == pre[c]);
        }
        c0 = c0 + 1;
    }
    let rbuf = ReaderBuf::new(cfg.block_limit, n);
    let builder = SnpBuilder::new();
    proof {
        lemma_sum_snps_zero(stores@, n as int);
        crate::binstore::lemma_store_count_all_empty(rbuf.model());
        assert forall|c: int|
            0 <= c < n implies spec_contig_inv(
            #[trigger] stores@[c],
            rbuf.model()[c],
            Seq::empty(),
            shift,
            table[c].reference_id,
        ) by {
            let kept = Seq::<GRawSnp>::empty();
            assert(rbuf.model()[c] == Seq::<GRawSnp>::empty());
            assert(kept.skip(0) =~= Seq::<GRawSnp>::empty());
            assert(kept.take(0) =~= Seq::<GRawSnp>::empty());
            assert forall|b: int| #[trigger] stores@[c].bin_at(b) == Seq::<GRawSnp>::empty() by {
                assert(!stores@[c].covers_bin(b));
            }
        }
    }
    (stores, rbuf, builder)
}

/// The sequential pipeline over one flat list of lines.
#[verifier::rlimit(100)]
fn build_from_lines(cfg: &IndexConfig, lines: Vec<Vec<u8>>, n_files: u64) -> (r: (Vec<u8>, Stats))
    requires
        cfg.wf(),
        cfg.registry.table().len() > 0,
        lines.deep_view().len() <= u32::MAX,
        usize::MAX as int >= u32::MAX as int + 1,
    ensures
        r.0@ == spec_write_index(
            cfg.registry.table(),
            cfg.bin_shift,
            spec_build_stores(
                cfg.registry.table(),
                cfg.registry.pmap(),
                cfg.bin_shift,
                lines.deep_view(),
            ),
        ),
        r.1.n_files == n_files,
        r.1.n_malformed == spec_n_malformed(
            lines.deep_view(),
            cfg.registry.table(),
            cfg.registry.pmap(),
        ),
        r.1.n_skipped_unknown_contig == spec_n_unknown(
            lines.deep_view(),
            cfg.registry.table(),
            cfg.registry.pmap(),
        ),
        r.1.n_records_read == r.1.n_malformed + r.1.n_skipped_unknown_contig + spec_n_hits(
            lines.deep_view(),
            cfg.registry.table(),
            cfg.registry.pmap(),
        ),
        r.1.n_records_kept == spec_kept_count(
            cfg.registry.table(),
            cfg.registry.pmap(),
            cfg.bin_shift,
            lines.deep_view(),
            cfg.registry.table().len() as int,
        ),
        r.1.n_records_kept + r.1.n_duplicates == spec_n_hits(
            lines.deep_view(),
            cfg.registry.table(),
            cfg.registry.pmap(),
        ),
{
    let n = cfg.registry.len();
    let ghost table = cfg.registry.table();
    let ghost pmap = cfg.registry.pmap();
    let ghost shift = cfg.bin_shift;
    let ghost glines = lines.deep_view();
    let total = lines.len();
    let init = init_run(cfg);
    let mut stores = init.0;
    let mut rbuf = init.1;
    let mut builder = init.2;
    let mut stats = Stats::new();
    stats.n_files = n_files as u64;
    let mut i: usize = 0;
    proof {
        assert(glines.take(0) =~= Seq::<Seq<u8>>::empty());
        assert forall|c: int|
            0 <= c < n implies spec_contig_inv(
            #[trigger] stores@[c],
            rbuf.model()[c],
            spec_kept_records(glines.take(0), table, pmap, c),
            shift,
            table[c].reference_id,
        ) by {
            assert(spec_kept_records(glines.take(0), table, pmap, c) =~= Seq::<GRawSnp>::empty());
            assert(spec_contig_inv(
                stores@[c],
                rbuf.model()[c],
                Seq::empty(),
                shift,
                table[c].reference_id,
            ));
        }
    }
    while i < total
        invariant
            n == cfg.registry.table().len(),
            n > 0,
            table == cfg.registry.table(),
            pmap == cfg.registry.pmap(),
            shift == cfg.bin_shift,
            cfg.wf(),
            glines == lines.deep_view(),
            total == lines@.len(),
            total <= u32::MAX,
            usize::MAX as int >= u32::MAX as int + 1,
            i <= total,
            builder.wf(cfg.registry),
            rbuf.wf(),
            rbuf.model().len() == n,
            stores@.len() == n,
            forall|c: int|
                0 <= c < n ==> spec_contig_inv(
                    #[trigger] stores@[c],
                    rbuf.model()[c],
                    spec_kept_records(glines.take(i as int), table, pmap, c),
                    shift,
                    table[c].reference_id,
                ),
            stats.n_malformed == spec_n_malformed(glines.take(i as int), table, pmap),
            stats.n_skipped_unknown_contig == spec_n_unknown(glines.take(i as int), table, pmap),
            stats.n_records_read == stats.n_malformed + stats.n_skipped_unknown_contig
                + spec_n_hits(glines.take(i as int), table, pmap),
            stats.n_records_kept == spec_sum_snps(stores@, n as int),
            stats.n_records_kept + stats.n_duplicates + spec_store_count(rbuf.model())
                == spec_n_hits(glines.take(i as int), table, pmap),
            stats.n_files == n_files,
        decreases total - i,
    {
        let ghost done = glines.take(i as int);
        let ghost done2 = glines.take(i + 1);
        let line = &lines[i];
        proof {
            assert(done2.drop_last() =~= done);
            assert(done2.last() == glines[i as int]);
            assert(glines[i as int] == lines@[i as int]@);
            lemma_counts_bounded(done2, table, pmap, 0);
            crate::binstore::lemma_store_count_nonneg(rbuf.model());
        }
        let outcome = builder.snp_from_bed(line, &cfg.registry);
        match outcome {
            Parsed::Skip => {
                proof {
                    assert(forall|c: int|
                        0 <= c < n ==> spec_kept_records(done2, table, pmap, c)
                            == spec_kept_records(done, table, pmap, c));
                }
            },
            Parsed::Malformed => {
                stats.n_malformed = stats.n_malformed + 1;
                stats.n_records_read = stats.n_records_read + 1;
                proof {
                    assert(forall|c: int|
                        0 <= c < n ==> spec_kept_records(done2, table, pmap, c)
                            == spec_kept_records(done, table, pmap, c));
                }
            },
            Parsed::UnknownContig => {
                stats.n_skipped_unknown_contig = stats.n_skipped_unknown_contig + 1;
                stats.n_records_read = stats.n_records_read + 1;
                proof {
                    assert(forall|c: int|
                        0 <= c < n ==> spec_kept_records(done2, table, pmap, c)
                            == spec_kept_records(done, table, pmap, c));
                }
            },
            Parsed::Hit(snp) => {
                stats.n_records_read = stats.n_records_read + 1;
                let c = snp.contig;
                let ghost graw = snp.raw@;
                let ghost kept_old = spec_kept_records(done, table, pmap, c as int);
                let ghost kept_new = spec_kept_records(done2, table, pmap, c as int);
                proof {
                    crate::registry::lemma_lookup_props(
                        table,
                        crate::registry::spec_apply_prefix_map(
                            pmap,
                            crate::parse::spec_split_tabs(lines@[i as int]@)[0],
                        ),
                    );
                    assert((c as int) < n);
                    assert(kept_new == kept_old.push(graw));
                    assert(forall|cc: int|
                        0 <= cc < n && cc != c as int ==> spec_kept_records(done2, table, pmap, cc)
                            == spec_kept_records(done, table, pmap, cc));
                    lemma_counts_bounded(done2, table, pmap, c as int);
                    lemma_kept_wf(done2, table, pmap, c as int);
                    assert(spec_contig_inv(
                        stores@[c as int],
                        rbuf.model()[c as int],
                        kept_old,
                        shift,
                        table[c as int].reference_id,
                    ));
                }
                let ghost pre_model = rbuf.model();
                let ghost d = kept_old.len() - pre_model[c as int].len();
                match rbuf.add_snp(snp) {
                    None => {
                        proof {
                            assert(rbuf.model() =~~= pre_model.update(
                                c as int,
                                pre_model[c as int].push(graw),
                            ));
                            crate::binstore::lemma_store_count_update(
                                pre_model,
                                c as int,
                                rbuf.model()[c as int],
                            );
                            assert(kept_new.take(d as int) =~= kept_old.take(d as int));
                            assert(kept_new.skip(d as int) =~= kept_old.skip(d as int).push(graw));
                            assert(spec_contig_inv(
                                stores@[c as int],
                                rbuf.model()[c as int],
                                kept_new,
                                shift,
                                table[c as int].reference_id,
                            ));
                        }
                    },
                    Some(block) => {
                        let blen = block.snps.len();
                        proof {
                            assert(rbuf.model() =~~= pre_model.update(
                                c as int,
                                Seq::<GRawSnp>::empty(),
                            ));
                            crate::binstore::lemma_store_count_update(
                                pre_model,
                                c as int,
                                rbuf.model()[c as int],
                            );
                            assert(block.snps.deep_view() == pre_model[c as int].push(graw));
                            assert(kept_new.take(d as int) =~= kept_old.take(d as int));
                            assert(block.snps.deep_view() =~= kept_new.skip(d as int));
                            assert(block.wf()) by {
                                assert forall|k: int|
                                    0 <= k < block.snps@.len() implies (
                                #[trigger] block.snps@[k])@.wf() by {
                                    assert(block.snps@[k]@ == block.snps.deep_view()[k]);
                                    assert(block.snps.deep_view()[k] == kept_new[d + k]);
                                }
                            }
                            assert(spec_contig_inv(
                                stores@[c as int],
                                block.snps.deep_view(),
                                kept_new,
                                shift,
                                table[c as int].reference_id,
                            ));
                        }
                        let ghost pre_stores = stores@;
                        let ghost pre_nsnps = stores@[c as int].n_snps;
                        let dups = deliver_block(
                            &mut stores,
                            c,
                            block,
                            Ghost(kept_new),
                            Ghost(shift),
                            Ghost(table[c as int].reference_id),
                        );
                        stats.n_records_kept = stats.n_records_kept + ((blen - dups) as u64);
                        stats.n_duplicates = stats.n_duplicates + (dups as u64);
                        proof {
                            assert(stores@ =~= pre_stores.update(c as int, stores@[c as int]));
                            lemma_sum_snps_update(
                                pre_stores,
                                n as int,
                                c as int,
                                stores@[c as int],
                            );
                        }
                    },
                }
            },
        }
        i = i + 1;
        proof {
            assert(glines.take(i as int) == done2);
        }
    }
    proof {
        assert(glines.take(total as int) =~= glines);
    }
    drain_and_write(cfg, Ghost(glines), stores, rbuf, stats)
}
/// Flush every remaining bucket into its store, then serialise.
#[verifier::rlimit(100)]
fn drain_and_write(
    cfg: &IndexConfig,
    gl: Ghost<Seq<Seq<u8>>>,
    mut stores: Vec<BinStore>,
    mut rbuf: ReaderBuf,
    stats: Stats,
) -> (r: (Vec<u8>, Stats))
    requires
        cfg.wf(),
        cfg.registry.table().len() > 0,
        gl@.len() <= u32::MAX,
        usize::MAX as int >= u32::MAX as int + 1,
        rbuf.wf(),
        rbuf.model().len() == cfg.registry.table().len(),
        stores@.len() == cfg.registry.table().len(),
        forall|cc: int|
            0 <= cc < cfg.registry.table().len() ==> spec_contig_inv(
                #[trigger] stores@[cc],
                rbuf.model()[cc],
                spec_kept_records(gl@, cfg.registry.table(), cfg.registry.pmap(), cc),
                cfg.bin_shift,
                cfg.registry.table()[cc].reference_id,
            ),
        stats.n_malformed == spec_n_malformed(gl@, cfg.registry.table(), cfg.registry.pmap()),
        stats.n_skipped_unknown_contig == spec_n_unknown(
            gl@,
            cfg.registry.table(),
            cfg.registry.pmap(),
        ),
        stats.n_records_read == stats.n_malformed + stats.n_skipped_unknown_contig + spec_n_hits(
            gl@,
            cfg.registry.table(),
            cfg.registry.pmap(),
        ),
        stats.n_records_kept == spec_sum_snps(stores@, cfg.registry.table().len() as int),
        stats.n_records_kept + stats.n_duplicates + spec_store_count(rbuf.model()) == spec_n_hits(
            gl@,
            cfg.registry.table(),
            cfg.registry.pmap(),
        ),
    ensures
        r.0@ == spec_write_index(
            cfg.registry.table(),
            cfg.bin_shift,
            spec_build_stores(cfg.registry.table(), cfg.registry.pmap(), cfg.bin_shift, gl@),
        ),
        r.1.n_files == stats.n_files,
        r.1.n_malformed == stats.n_malformed,
        r.1.n_skipped_unknown_contig == stats.n_skipped_unknown_contig,
        r.1.n_records_read == stats.n_records_read,
        r.1.n_records_kept == spec_kept_count(
            cfg.registry.table(),
            cfg.registry.pmap(),
            cfg.bin_shift,
            gl@,
            cfg.registry.table().len() as int,
        ),
        r.1.n_records_kept + r.1.n_duplicates == spec_n_hits(
            gl@,
            cfg.registry.table(),
            cfg.registry.pmap(),
        ),
{
    let mut stats = stats;
    let n = cfg.registry.len();
    let ghost table = cfg.registry.table();
    let ghost pmap = cfg.registry.pmap();
    let ghost shift = cfg.bin_shift;
    let ghost glines = gl@;
    drain_buckets(cfg, Ghost(glines), &mut stores, &mut rbuf, &mut stats);
    // every record now sits in its store; serialise
    let bytes = write_stores(cfg, Ghost(glines), &stores, Ghost(rbuf.model()));
    (bytes, stats)
}

/// Flush every remaining bucket into its store, contig by contig.
#[verifier::rlimit(100)]
fn drain_buckets(
    cfg: &IndexConfig,
    gl: Ghost<Seq<Seq<u8>>>,
    stores: &mut Vec<BinStore>,
    rbuf: &mut ReaderBuf,
    stats: &mut Stats,
)
    requires
        cfg.wf(),
        gl@.len() <= u32::MAX,
        usize::MAX as int >= u32::MAX as int + 1,
        old(rbuf).wf(),
        old(rbuf).model().len() == cfg.registry.table().len(),
        old(stores)@.len() == cfg.registry.table().len(),
        forall|cc: int|
            0 <= cc < cfg.registry.table().len() ==> spec_contig_inv(
                #[trigger] old(stores)@[cc],
                old(rbuf).model()[cc],
                spec_kept_records(gl@, cfg.registry.table(), cfg.registry.pmap(), cc),
                cfg.bin_shift,
                cfg.registry.table()[cc].reference_id,
            ),
        old(stats).n_records_kept == spec_sum_snps(
            old(stores)@,
            cfg.registry.table().len() as int,
        ),
        old(stats).n_records_kept + old(stats).n_duplicates + spec_store_count(
            old(rbuf).model(),
        ) == spec_n_hits(gl@, cfg.registry.table(), cfg.registry.pmap()),
    ensures
        final(rbuf).wf(),
        final(rbuf).model().len() == cfg.registry.table().len(),
        final(stores)@.len() == cfg.registry.table().len(),
        forall|cc: int|
            0 <= cc < cfg.registry.table().len() ==> spec_contig_inv(
                #[trigger] final(stores)@[cc],
                final(rbuf).model()[cc],
                spec_kept_records(gl@, cfg.registry.table(), cfg.registry.pmap(), cc),
                cfg.bin_shift,
                cfg.registry.table()[cc].reference_id,
            ),
        forall|cc: int|
            0 <= cc < cfg.registry.table().len() ==> #[trigger] final(rbuf).model()[cc] == Seq::<
                GRawSnp,
            >::empty(),
        final(stats).n_records_kept == spec_sum_snps(
            final(stores)@,
            cfg.registry.table().len() as int,
        ),
        final(stats).n_records_kept + final(stats).n_duplicates == spec_n_hits(
            gl@,
            cfg.registry.table(),
            cfg.registry.pmap(),
        ),
        final(stats).n_files == old(stats).n_files,
        final(stats).n_malformed == old(stats).n_malformed,
        final(stats).n_skipped_unknown_contig == old(stats).n_skipped_unknown_contig,
        final(stats).n_records_read == old(stats).n_records_read,
{
    let n = cfg.registry.len();
    let ghost table = cfg.registry.table();
    let ghost pmap = cfg.registry.pmap();
    let ghost shift = cfg.bin_shift;
    let ghost glines = gl@;
    // drain: flush what is left in the buffer, contig by contig
    let mut c: usize = 0;
    while c < n
        invariant
            n == cfg.registry.table().len(),
            table == cfg.registry.table(),
            pmap == cfg.registry.pmap(),
            shift == cfg.bin_shift,
            cfg.wf(),
            glines == gl@,
            glines.len() <= u32::MAX,
            usize::MAX as int >= u32::MAX as int + 1,
            c <= n,
            rbuf.wf(),
            rbuf.model().len() == n,
            stores@.len() == n,
            forall|cc: int|
                0 <= cc < n ==> spec_contig_inv(
                    #[trigger] stores@[cc],
                    rbuf.model()[cc],
                    spec_kept_records(glines, table, pmap, cc),
                    shift,
                    table[cc].reference_id,
                ),
            forall|cc: int| 0 <= cc < c ==> #[trigger] rbuf.model()[cc] == Seq::<GRawSnp>::empty(),
            stats.n_files == old(stats).n_files,
            stats.n_malformed == old(stats).n_malformed,
            stats.n_skipped_unknown_contig == old(stats).n_skipped_unknown_contig,
            stats.n_records_read == old(stats).n_records_read,
            stats.n_records_kept == spec_sum_snps(stores@, n as int),
            stats.n_records_kept + stats.n_duplicates + spec_store_count(rbuf.model())
                == spec_n_hits(glines, table, pmap),
        decreases n - c,
    {
        let ghost kept = spec_kept_records(glines, table, pmap, c as int);
        let ghost pre_model = rbuf.model();
        proof {
            lemma_counts_bounded(glines, table, pmap, c as int);
            crate::binstore::lemma_store_count_nonneg(rbuf.model());
        }
        match rbuf.take_bucket(c) {
            None => {
                proof {
                    assert(rbuf.model() =~~= pre_model.update(c as int, Seq::<GRawSnp>::empty()));
                    crate::binstore::lemma_store_count_update(
                        pre_model,
                        c as int,
                        rbuf.model()[c as int],
                    );
                }
            },
            Some(block) => {
                let blen = block.snps.len();
                proof {
                    assert(rbuf.model() =~~= pre_model.update(c as int, Seq::<GRawSnp>::empty()));
                    crate::binstore::lemma_store_count_update(
                        pre_model,
                        c as int,
                        rbuf.model()[c as int],
                    );
                    assert(block.snps.deep_view() == pre_model[c as int]);
                    lemma_kept_wf(glines, table, pmap, c as int);
                    assert(spec_contig_inv(
                        stores@[c as int],
                        pre_model[c as int],
                        kept,
                        shift,
                        table[c as int].reference_id,
                    ));
                    assert(block.wf()) by {
                        let d0 = kept.len() - pre_model[c as int].len();
                        assert forall|k: int|
                            0 <= k < block.snps@.len() implies (#[trigger] block.snps@[k])@.wf() by {
                            assert(block.snps@[k]@ == block.snps.deep_view()[k]);
                            assert(block.snps.deep_view()[k] == kept[d0 + k]);
                        }
                    }
                }
                let ghost pre_stores = stores@;
                let dups = deliver_block(
                    stores,
                    c,
                    block,
                    Ghost(kept),
                    Ghost(shift),
                    Ghost(table[c as int].reference_id),
                );
                stats.n_records_kept = stats.n_records_kept + ((blen - dups) as u64);
                stats.n_duplicates = stats.n_duplicates + (dups as u64);
                proof {
                    assert(stores@ =~= pre_stores.update(c as int, stores@[c as int]));
                    lemma_sum_snps_update(pre_stores, n as int, c as int, stores@[c as int]);
                }
            },
        }
        c = c + 1;
    }
    proof {
        crate::binstore::lemma_store_count_nonneg(rbuf.model());
        crate::binstore::lemma_store_count_all_empty(rbuf.model());
    }
}

/// Serialise the finished stores; their contents are pinned to the kept
/// records of each contig.
#[verifier::rlimit(100)]
fn write_stores(
    cfg: &IndexConfig,
    gl: Ghost<Seq<Seq<u8>>>,
    stores: &Vec<BinStore>,
    bufmodel: Ghost<Seq<Seq<GRawSnp>>>,
) -> (bytes: Vec<u8>)
    requires
        cfg.wf(),
        usize::MAX as int >= u32::MAX as int + 1,
        stores@.len() == cfg.registry.table().len(),
        bufmodel@.len() == cfg.registry.table().len(),
        forall|cc: int|
            0 <= cc < cfg.registry.table().len() ==> spec_contig_inv(
                #[trigger] stores@[cc],
                bufmodel@[cc],
                spec_kept_records(gl@, cfg.registry.table(), cfg.registry.pmap(), cc),
                cfg.bin_shift,
                cfg.registry.table()[cc].reference_id,
            ),
        forall|cc: int|
            0 <= cc < cfg.registry.table().len() ==> #[trigger] bufmodel@[cc] == Seq::<
                GRawSnp,
            >::empty(),
    ensures
        bytes@ == spec_write_index(
            cfg.registry.table(),
            cfg.bin_shift,
            spec_build_stores(cfg.registry.table(), cfg.registry.pmap(), cfg.bin_shift, gl@),
        ),
        spec_sum_snps(stores@, cfg.registry.table().len() as int) == spec_kept_count(
            cfg.registry.table(),
            cfg.registry.pmap(),
            cfg.bin_shift,
            gl@,
            cfg.registry.table().len() as int,
        ),
{
    proof {
        lemma_assemble_stores(
            stores@,
            bufmodel@,
            cfg.registry.table(),
            cfg.registry.pmap(),
            cfg.bin_shift,
            gl@,
            cfg.registry.table().len() as int,
        );
    }
    write_index(&cfg.registry.contigs, cfg.bin_shift, stores)
}
/// Once every bucket is empty, each store is exactly its contig's
/// finished store, and the stored totals match.
proof fn lemma_assemble_stores(
    stores: Seq<BinStore>,
    bufmodel: Seq<Seq<GRawSnp>>,
    table: Seq<GContig>,
    pmap: Seq<(Seq<u8>, Seq<u8>)>,
    shift: u8,
    glines: Seq<Seq<u8>>,
    n: int,
)
    requires
        stores.len() == n,
        bufmodel.len() == n,
        0 <= n,
        forall|cc: int|
            0 <= cc < n ==> spec_contig_inv(
                #[trigger] stores[cc],
                bufmodel[cc],
                spec_kept_records(glines, table, pmap, cc),
                shift,
                table[cc].reference_id,
            ),
        forall|cc: int| 0 <= cc < n ==> #[trigger] bufmodel[cc] == Seq::<GRawSnp>::empty(),
    ensures
        forall|cc: int|
            0 <= cc < n ==> #[trigger] stores[cc].gstore() == spec_gstore_of(
                table[cc].reference_id,
                shift,
                spec_kept_records(glines, table, pmap, cc),
            ),
        forall|cc: int|
            0 <= cc < n ==> (#[trigger] stores[cc]).n_snps == spec_store_count(
                spec_gstore_of(
                    table[cc].reference_id,
                    shift,
                    spec_kept_records(glines, table, pmap, cc),
                ).bins,
            ),
        spec_sum_snps(stores, n) == spec_kept_count(table, pmap, shift, glines, n),
        n == table.len() ==> Seq::new(stores.len(), |ci: int| stores[ci].gstore())
            == spec_build_stores(table, pmap, shift, glines),
        forall|cc: int| 0 <= cc < n ==> (#[trigger] stores[cc]).wf(),
        forall|cc: int|
            0 <= cc < n ==> (#[trigger] stores[cc]).reference_id == table[cc].reference_id
                && stores[cc].bin_shift == shift,
{
    assert forall|cc: int|
        0 <= cc < n implies #[trigger] stores[cc].gstore() == spec_gstore_of(
        table[cc].reference_id,
        shift,
        spec_kept_records(glines, table, pmap, cc),
    ) by {
        let kept = spec_kept_records(glines, table, pmap, cc);
        assert(bufmodel[cc] == Seq::<GRawSnp>::empty());
        assert(kept.take(kept.len() as int) =~= kept);
        if kept.len() == 0 {
            assert(stores[cc].model() =~= Seq::<Seq<GRawSnp>>::empty());
            assert(stores[cc].gstore() =~~= spec_gstore_of(table[cc].reference_id, shift, kept));
        } else {
            let gs = spec_gstore_of(table[cc].reference_id, shift, kept);
            assert(stores[cc].min_bin as int == spec_recs_min_bin(kept, shift));
            assert(stores[cc].min_bin + stores[cc].bins@.len() - 1 == spec_recs_max_bin(
                kept,
                shift,
            ));
            assert(stores[cc].bins@.len() == gs.bins.len());
            assert forall|k: int|
                0 <= k < stores[cc].model().len() implies #[trigger] stores[cc].model()[k]
                == gs.bins[k] by {
                assert(stores[cc].covers_bin(stores[cc].min_bin + k));
                assert(stores[cc].bin_at(stores[cc].min_bin + k) == stores[cc].model()[k]);
                assert(stores[cc].bin_at(stores[cc].min_bin + k) == spec_bin_fold_on(
                    Seq::empty(),
                    kept.take(kept.len() as int),
                    shift,
                    stores[cc].min_bin + k,
                ));
            }
            assert(stores[cc].gstore().bins =~= gs.bins);
            assert(stores[cc].gstore() =~~= gs);
        }
    }
    assert forall|cc: int|
        0 <= cc < n implies (#[trigger] stores[cc]).n_snps == spec_store_count(
        spec_gstore_of(
            table[cc].reference_id,
            shift,
            spec_kept_records(glines, table, pmap, cc),
        ).bins,
    ) by {
        assert(stores[cc].gstore().bins == stores[cc].model());
    }
    lemma_sum_snps_matches(stores, table, pmap, shift, glines, n);
    if n == table.len() {
        assert(Seq::new(stores.len(), |ci: int| stores[ci].gstore()) =~~= spec_build_stores(
            table,
            pmap,
            shift,
            glines,
        ));
    }
}

} // verus!
