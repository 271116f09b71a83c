use vstd::prelude::*;

verus! {

/// Longest SNP name kept in the index; longer names are truncated.
pub const MAX_NAME_BYTES: usize = 31;

/// A named reference sequence, interned once from the configuration.
pub struct Contig {
    pub name: Vec<u8>,
    pub length: u64,
    pub reference_id: u32,
}

/// Mathematical model of a contig table entry.
#[verifier::ext_equal]
pub ghost struct GContig {
    pub name: Seq<u8>,
    pub length: u64,
    pub reference_id: u32,
}

impl View for Contig {
    type V = GContig;

    open spec fn view(&self) -> GContig {
        GContig { name: self.name@, length: self.length, reference_id: self.reference_id }
    }
}

impl DeepView for Contig {
    type V = GContig;

    open spec fn deep_view(&self) -> GContig {
        self@
    }
}

impl GContig {
    /// A usable contig has a non-empty name that fits the index header
    /// and a positive length.
    pub open spec fn wf(self) -> bool {
        &&& 0 < self.name.len() <= u16::MAX
        &&& self.length > 0
    }
}

impl Contig {
    pub fn new(name: Vec<u8>, length: u64, reference_id: u32) -> (c: Contig)
        ensures
            c@ == (GContig { name: name@, length, reference_id }),
    {
        Contig { name, length, reference_id }
    }
}

/// One single-position SNP record, without its contig.
pub struct RawSnp {
    pub position: u32,
    pub name: Vec<u8>,
    pub allele_code: u8,
    pub flags: u8,
}

/// Mathematical model of a SNP record.
#[verifier::ext_equal]
pub ghost struct GRawSnp {
    pub position: u32,
    pub name: Seq<u8>,
    pub allele_code: u8,
    pub flags: u8,
}

impl View for RawSnp {
    type V = GRawSnp;

    open spec fn view(&self) -> GRawSnp {
        GRawSnp {
            position: self.position,
            name: self.name@,
            allele_code: self.allele_code,
            flags: self.flags,
        }
    }
}

impl DeepView for RawSnp {
    type V = GRawSnp;

    open spec fn deep_view(&self) -> GRawSnp {
        self@
    }
}

impl GRawSnp {
    pub open spec fn wf(self) -> bool {
        self.name.len() <= MAX_NAME_BYTES
    }

    /// Two records are duplicates when they agree on position and name.
    pub open spec fn same_key(self, other: GRawSnp) -> bool {
        self.position == other.position && self.name == other.name
    }
}

/// A SNP paired with the handle (registry index) of its contig.
pub struct Snp {
    pub raw: RawSnp,
    pub contig: usize,
}

impl Snp {
    /// Split a SNP into its raw part and its contig handle.
    pub fn components(self) -> (r: (RawSnp, usize))
        ensures
            r.0@ == self.raw@,
            r.1 == self.contig,
    {
        (self.raw, self.contig)
    }
}

/// A batch of records for a single contig; the unit of transfer between
/// the reader stage and the storage stage. Blocks are never empty.
pub struct SnpBlock {
    pub contig: usize,
    pub snps: Vec<RawSnp>,
}

impl SnpBlock {
    pub open spec fn wf(self) -> bool {
        &&& self.snps@.len() > 0
        &&& forall|i: int| 0 <= i < self.snps@.len() ==> (#[trigger] self.snps@[i])@.wf()
    }

    pub fn new(contig: usize, snps: Vec<RawSnp>) -> (b: SnpBlock)
        ensures
            b.contig == contig,
            b.snps@ == snps@,
    {
        SnpBlock { contig, snps }
    }

    /// Smallest and largest position over the block's records.
    pub fn min_max(&self) -> (r: Option<(u32, u32)>)
        ensures
            match r {
                Some((mn, mx)) => {
                    &&& self.snps@.len() > 0
                    &&& forall|i: int|
                        0 <= i < self.snps@.len() ==> mn <= (#[trigger] self.snps@[i])@.position
                            <= mx
                    &&& exists|i: int|
                        0 <= i < self.snps@.len() && (#[trigger] self.snps@[i])@.position == mn
                    &&& exists|i: int|
                        0 <= i < self.snps@.len() && (#[trigger] self.snps@[i])@.position == mx
                },
                None => self.snps@.len() == 0,
            },
    {
        if self.snps.len() == 0 {
            return None;
        }
        let mut mn: u32 = self.snps[0].position;
        let mut mx: u32 = self.snps[0].position;
        let mut i: usize = 1;
        while i < self.snps.len()
            invariant
                1 <= i <= self.snps@.len(),
                forall|j: int| 0 <= j < i ==> mn <= (#[trigger] self.snps@[j])@.position <= mx,
                exists|j: int| 0 <= j < i && (#[trigger] self.snps@[j])@.position == mn,
                exists|j: int| 0 <= j < i && (#[trigger] self.snps@[j])@.position == mx,
            decreases self.snps@.len() - i,
        {
            let p = self.snps[i].position;
            if p < mn {
                mn = p;
            }
            if p > mx {
                mx = p;
            }
            i = i + 1;
        }
        Some((mn, mx))
    }
}

/// Counters reported after a build. All are exact, not estimates.
#[derive(PartialEq, Eq, Structural, Clone, Copy, Debug)]
pub struct Stats {
    pub n_files: u64,
    pub n_records_read: u64,
    pub n_records_kept: u64,
    pub n_duplicates: u64,
    pub n_skipped_unknown_contig: u64,
    pub n_malformed: u64,
}

impl Stats {
    pub fn new() -> (s: Stats)
        ensures
            s == (Stats {
                n_files: 0,
                n_records_read: 0,
                n_records_kept: 0,
                n_duplicates: 0,
                n_skipped_unknown_contig: 0,
                n_malformed: 0,
            }),
    {
        Stats {
            n_files: 0,
            n_records_read: 0,
            n_records_kept: 0,
            n_duplicates: 0,
            n_skipped_unknown_contig: 0,
            n_malformed: 0,
        }
    }

    /// Every record read is accounted for by exactly one outcome counter.
    pub open spec fn balanced(self) -> bool {
        self.n_records_kept + self.n_duplicates + self.n_skipped_unknown_contig
            + self.n_malformed == self.n_records_read
    }
}

/// A configuration the build refuses before any work starts.
#[derive(PartialEq, Eq, Structural, Clone, Copy, Debug)]
pub enum ConfigError {
    /// The contig table is empty: no input record could ever be kept.
    EmptyContigTable,
    /// `threads` must be at least 1.
    ZeroThreads,
}

} // verus!
