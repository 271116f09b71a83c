use vstd::prelude::*;

use crate::bytes::{parse_u32_dec, spec_dec_value, spec_is_dec_digits};
use crate::registry::{spec_apply_prefix_map, spec_lookup, ContigRegistry};
use crate::types::{GRawSnp, RawSnp, Snp, MAX_NAME_BYTES};

verus! {

/// Horizontal tab, the BED field separator.
pub const TAB: u8 = 0x09;

/// Fields of a line split on tabs. A line always has at least one field;
/// an empty line has one empty field.
pub open spec fn spec_split_tabs(s: Seq<u8>) -> Seq<Seq<u8>>
    decreases s.len(),
{
    if s.len() == 0 {
        seq![Seq::<u8>::empty()]
    } else if s[0] == TAB {
        seq![Seq::<u8>::empty()] + spec_split_tabs(s.drop_first())
    } else {
        let rest = spec_split_tabs(s.drop_first());
        seq![seq![s[0]] + rest[0]] + rest.drop_first()
    }
}

pub proof fn lemma_split_tabs_nonempty(s: Seq<u8>)
    ensures
        spec_split_tabs(s).len() >= 1,
    decreases s.len(),
{
    if s.len() > 0 {
        lemma_split_tabs_nonempty(s.drop_first());
    }
}

/// The split of a partially consumed line: the bytes already gathered in
/// `cur` complete the first field of the remainder's split.
pub open spec fn spec_split_cons(cur: Seq<u8>, rest: Seq<u8>) -> Seq<Seq<u8>> {
    let r = spec_split_tabs(rest);
    seq![cur + r[0]] + r.drop_first()
}

pub fn split_tabs(line: &Vec<u8>) -> (fields: Vec<Vec<u8>>)
    ensures
        fields.deep_view() == spec_split_tabs(line@),
        fields@.len() >= 1,
{
    let mut fields: Vec<Vec<u8>> = Vec::new();
    let mut cur: Vec<u8> = Vec::new();
    let mut i: usize = 0;
    proof {
        lemma_split_tabs_nonempty(line@);
        assert(line@.skip(0) =~= line@);
        assert(spec_split_cons(Seq::empty(), line@) =~~= spec_split_tabs(line@));
    }
    while i < line.len()
        invariant
            i <= line@.len(),
            fields.deep_view() + spec_split_cons(cur@, line@.skip(i as int)) == spec_split_tabs(
                line@,
            ),
        decreases line@.len() - i,
    {
        let ghost pre_fields = fields.deep_view();
        let ghost pre_cur = cur@;
        let ghost rest = line@.skip(i as int);
        proof {
            assert(rest.drop_first() =~= line@.skip(i + 1));
            assert(rest[0] == line@[i as int]);
            lemma_split_tabs_nonempty(line@.skip(i + 1));
        }
        let c = line[i];
        if c == TAB {
            fields.push(cur);
            cur = Vec::new();
            proof {
                assert(spec_split_tabs(rest) == seq![Seq::<u8>::empty()] + spec_split_tabs(
                    line@.skip(i + 1),
                ));
                assert(spec_split_cons(pre_cur, rest) =~~= seq![pre_cur] + spec_split_tabs(
                    line@.skip(i + 1),
                ));
                assert(spec_split_cons(cur@, line@.skip(i + 1)) =~= spec_split_tabs(
                    line@.skip(i + 1),
                ));
                assert(fields.deep_view() =~~= pre_fields.push(pre_cur));
                assert(fields.deep_view() + spec_split_cons(cur@, line@.skip(i + 1))
                    =~= spec_split_tabs(line@));
            }
        } else {
            cur.push(c);
            proof {
                let r1 = spec_split_tabs(line@.skip(i + 1));
                assert(spec_split_tabs(rest) == seq![seq![line@[i as int]] + r1[0]]
                    + r1.drop_first());
                assert(spec_split_cons(pre_cur, rest) =~~= seq![pre_cur + seq![line@[i as int]]
                    + r1[0]] + r1.drop_first());
                assert(cur@ =~= pre_cur + seq![line@[i as int]]);
                assert(spec_split_cons(cur@, line@.skip(i + 1)) =~~= spec_split_cons(pre_cur, rest));
            }
        }
        i = i + 1;
    }
    proof {
        assert(line@.skip(i as int) =~= Seq::<u8>::empty());
        assert(spec_split_cons(cur@, Seq::<u8>::empty()) =~~= seq![cur@]);
    }
    let ghost pre_fields = fields.deep_view();
    let ghost last = cur@;
    fields.push(cur);
    proof {
        assert(fields.deep_view() =~~= pre_fields.push(last));
        assert(fields.deep_view() =~~= spec_split_tabs(line@));
    }
    fields
}

/// Code of one nucleotide letter (either case): A, C, G, T, N give 1 to 5;
/// anything else gives 0.
pub open spec fn spec_nuc_code(b: u8) -> u8 {
    if b == 0x41 || b == 0x61 {
        1
    } else if b == 0x43 || b == 0x63 {
        2
    } else if b == 0x47 || b == 0x67 {
        3
    } else if b == 0x54 || b == 0x74 {
        4
    } else if b == 0x4E || b == 0x6E {
        5
    } else {
        0
    }
}

/// Code of an optional single-letter allele field.
pub open spec fn spec_allele_of_field(fields: Seq<Seq<u8>>, i: int) -> u8 {
    if fields.len() > i && fields[i].len() == 1 {
        spec_nuc_code(fields[i][0])
    } else {
        0
    }
}

/// Is this field a decimal number that fits a `u32`?
pub open spec fn spec_valid_u32(s: Seq<u8>) -> bool {
    s.len() > 0 && spec_is_dec_digits(s) && spec_dec_value(s) <= u32::MAX
}

/// The record built from a tokenised line: position from the start field,
/// name truncated to `MAX_NAME_BYTES`, the two optional allele letters
/// packed in one byte, flags reserved as zero.
pub open spec fn spec_snp_of_fields(fields: Seq<Seq<u8>>) -> GRawSnp {
    GRawSnp {
        position: spec_dec_value(fields[1]) as u32,
        name: if fields[3].len() <= MAX_NAME_BYTES {
            fields[3]
        } else {
            fields[3].take(MAX_NAME_BYTES as int)
        },
        allele_code: (0x10 * spec_allele_of_field(fields, 6) + spec_allele_of_field(
            fields,
            7,
        )) as u8,
        flags: 0,
    }
}

/// What one input line means.
pub ghost enum GParse {
    /// Not a record: empty, a comment, or a `track` header line.
    Skip,
    /// A record that cannot be used: too few fields, a start or end that is
    /// not a `u32` decimal, or an interval wider than one base.
    Malformed,
    /// A well-formed record naming a contig outside the table.
    UnknownContig,
    /// A kept record with the index of its contig.
    Snp { snp: GRawSnp, contig: int },
}

/// Leading bytes of a `track` header line.
pub open spec fn spec_track_prefix() -> Seq<u8> {
    seq![0x74u8, 0x72u8, 0x61u8, 0x63u8, 0x6Bu8]
}

/// Meaning of one BED line against a contig table and rewrite rules.
pub open spec fn spec_parse_line(
    line: Seq<u8>,
    table: Seq<crate::types::GContig>,
    pmap: Seq<(Seq<u8>, Seq<u8>)>,
) -> GParse {
    if line.len() == 0 || line[0] == 0x23 || spec_track_prefix().is_prefix_of(line) {
        GParse::Skip
    } else {
        let fields = spec_split_tabs(line);
        if fields.len() < 4 {
            GParse::Malformed
        } else if !spec_valid_u32(fields[1]) || !spec_valid_u32(fields[2]) {
            GParse::Malformed
        } else if spec_dec_value(fields[2]) != spec_dec_value(fields[1]) + 1 {
            GParse::Malformed
        } else {
            match spec_lookup(table, spec_apply_prefix_map(pmap, fields[0])) {
                None => GParse::UnknownContig,
                Some(ci) => GParse::Snp { snp: spec_snp_of_fields(fields), contig: ci },
            }
        }
    }
}

/// Outcome of parsing one line.
pub enum Parsed {
    Skip,
    Malformed,
    UnknownContig,
    Hit(Snp),
}

/// Does the executable outcome agree with the specification outcome?
pub open spec fn spec_parse_matches(r: Parsed, g: GParse) -> bool {
    match r {
        Parsed::Skip => g == GParse::Skip,
        Parsed::Malformed => g == GParse::Malformed,
        Parsed::UnknownContig => g == GParse::UnknownContig,
        Parsed::Hit(s) => g == (GParse::Snp { snp: s.raw@, contig: s.contig as int }),
    }
}

/// Builds SNPs from BED lines, caching the last contig lookup so that runs
/// of same-contig records skip the registry scan.
pub struct SnpBuilder {
    pub cache: Option<(Vec<u8>, usize)>,
}

impl SnpBuilder {
    /// The cache only ever holds an answer the registry would give.
    pub open spec fn wf(self, reg: ContigRegistry) -> bool {
        match self.cache {
            Some(c) => spec_lookup(reg.table(), spec_apply_prefix_map(reg.pmap(), c.0@)) == Some(
                c.1 as int,
            ),
            None => true,
        }
    }

    pub fn new() -> (b: SnpBuilder)
        ensures
            b.cache is None,
    {
        SnpBuilder { cache: None }
    }

    /// Contig index for a raw chromosome field, through the cache.
    fn lookup_contig(&mut self, reg: &ContigRegistry, cname: &Vec<u8>) -> (r: Option<usize>)
        requires
            old(self).wf(*reg),
        ensures
            final(self).wf(*reg),
            match r {
                Some(i) => Some(i as int) == spec_lookup(
                    reg.table(),
                    spec_apply_prefix_map(reg.pmap(), cname@),
                ),
                None => spec_lookup(
                    reg.table(),
                    spec_apply_prefix_map(reg.pmap(), cname@),
                ) is None,
            },
    {
        match &self.cache {
            Some(c) => {
                if &c.0 == cname {
                    proof {
                        assert(c.0@ =~= cname@);
                    }
                    return Some(c.1);
                }
            },
            None => {},
        }
        let r = reg.lookup(cname);
        match r {
            Some(i) => {
                let mut key: Vec<u8> = Vec::new();
                crate::bytes::push_bytes(&mut key, cname);
                proof {
                    assert(key@ =~= cname@);
                }
                self.cache = Some((key, i));
                Some(i)
            },
            None => None,
        }
    }

    /// Parse one BED line. The outcome agrees exactly with
    /// `spec_parse_line` on the line's bytes.
    pub fn snp_from_bed(&mut self, line: &Vec<u8>, reg: &ContigRegistry) -> (r: Parsed)
        requires
            old(self).wf(*reg),
        ensures
            final(self).wf(*reg),
            spec_parse_matches(r, spec_parse_line(line@, reg.table(), reg.pmap())),
    {
        if line.len() == 0 {
            return Parsed::Skip;
        }
        if line[0] == 0x23 {
            return Parsed::Skip;
        }
        if line.len() >= 5 && line[0] == 0x74 && line[1] == 0x72 && line[2] == 0x61 && line[3]
            == 0x63 && line[4] == 0x6B {
            proof {
                assert(spec_track_prefix() =~= line@.take(5));
            }
            return Parsed::Skip;
        }
        assert(!spec_track_prefix().is_prefix_of(line@)) by {
            if spec_track_prefix().is_prefix_of(line@) {
                assert(line@.take(5) =~= spec_track_prefix());
            }
        }
        let fields = split_tabs(line);
        let ghost gf = spec_split_tabs(line@);
        if fields.len() < 4 {
            return Parsed::Malformed;
        }
        let start = match parse_u32_dec(&fields[1], 0, fields[1].len()) {
            Some(v) => v,
            None => {
                proof {
                    assert(gf[1] =~= fields@[1]@);
                    assert(fields@[1]@.subrange(0, fields@[1]@.len() as int) =~= fields@[1]@);
                }
                return Parsed::Malformed;
            },
        };
        let end = match parse_u32_dec(&fields[2], 0, fields[2].len()) {
            Some(v) => v,
            None => {
                proof {
                    assert(gf[2] =~= fields@[2]@);
                    assert(fields@[2]@.subrange(0, fields@[2]@.len() as int) =~= fields@[2]@);
                }
                return Parsed::Malformed;
            },
        };
        proof {
            assert(gf[1] =~= fields@[1]@);
            assert(gf[2] =~= fields@[2]@);
            assert(fields@[1]@.subrange(0, fields@[1]@.len() as int) =~= gf[1]);
            assert(fields@[2]@.subrange(0, fields@[2]@.len() as int) =~= gf[2]);
        }
        if (end as u64) != (start as u64) + 1 {
            return Parsed::Malformed;
        }
        let contig = match self.lookup_contig(reg, &fields[0]) {
            Some(i) => i,
            None => {
                proof {
                    assert(gf[0] =~= fields@[0]@);
                }
                return Parsed::UnknownContig;
            },
        };
        // Assemble the record: truncated name, packed alleles.
        let nm = &fields[3];
        let keep = if nm.len() <= MAX_NAME_BYTES {
            nm.len()
        } else {
            MAX_NAME_BYTES
        };
        let mut name: Vec<u8> = Vec::new();
        let mut j: usize = 0;
        while j < keep
            invariant
                j <= keep <= nm@.len(),
                name@ == nm@.take(j as int),
            decreases keep - j,
        {
            name.push(nm[j]);
            assert(name@ =~= nm@.take(j + 1));
            j = j + 1;
        }
        let a_ref = allele_of_field(&fields, 6);
        let a_alt = allele_of_field(&fields, 7);
        let raw = RawSnp { position: start, name, allele_code: 0x10 * a_ref + a_alt, flags: 0 };
        proof {
            assert(gf[0] =~= fields@[0]@);
            assert(gf[3] =~= fields@[3]@);
            if nm@.len() <= MAX_NAME_BYTES {
                assert(nm@.take(keep as int) =~= nm@);
            }
            assert(raw@ == spec_snp_of_fields(gf));
        }
        Parsed::Hit(Snp { raw, contig })
    }
}

/// Code of the optional allele field `i`, executable side.
fn allele_of_field(fields: &Vec<Vec<u8>>, i: usize) -> (r: u8)
    ensures
        r == spec_allele_of_field(fields.deep_view(), i as int),
        r <= 5,
{
    if fields.len() > i {
        let f = &fields[i];
        if f.len() == 1 {
            proof {
                assert(fields.deep_view()[i as int] == fields@[i as int]@);
            }
            let b = f[0];
            if b == 0x41 || b == 0x61 {
                1
            } else if b == 0x43 || b == 0x63 {
                2
            } else if b == 0x47 || b == 0x67 {
                3
            } else if b == 0x54 || b == 0x74 {
                4
            } else if b == 0x4E || b == 0x6E {
                5
            } else {
                0
            }
        } else {
            proof {
                assert(fields.deep_view()[i as int] == fields@[i as int]@);
            }
            0
        }
    } else {
        0
    }
}

} // verus!
