use gembs_dbsnp::process::{build_index, IndexConfig, InputFiles};
use gembs_dbsnp::registry::ContigRegistry;
use gembs_dbsnp::types::{ConfigError, Contig};

fn cfg_one_contig(threads: usize) -> IndexConfig {
    let contigs = vec![Contig::new(b"chr1".to_vec(), 1000, 0)];
    IndexConfig {
        threads,
        block_limit: 256,
        bin_shift: 8,
        registry: ContigRegistry::new(contigs, Vec::new()),
    }
}

fn lines(ls: &[&str]) -> Vec<Vec<u8>> {
    ls.iter().map(|l| l.as_bytes().to_vec()).collect()
}

fn rd_u16(b: &[u8], at: usize) -> u16 {
    ((b[at] as u16) << 8) | (b[at + 1] as u16)
}

fn rd_u32(b: &[u8], at: usize) -> u32 {
    ((b[at] as u32) << 24) | ((b[at + 1] as u32) << 16) | ((b[at + 2] as u32) << 8) | (b[at
        + 3] as u32)
}

fn rd_u64(b: &[u8], at: usize) -> u64 {
    let mut v: u64 = 0;
    for k in 0..8 {
        v = (v << 8) | (b[at + k] as u64);
    }
    v
}

/// Parsed view of one contig section, for checking outputs.
struct Section {
    reference_id: u32,
    min_bin: u32,
    max_bin: u32,
    records: Vec<(u32, u8, u8, Vec<u8>)>,
}

/// Walk the whole file back into sections, checking the frame as we go.
fn parse_index(bytes: &[u8]) -> (u8, Vec<(u32, Vec<u8>, u64)>, Vec<Section>) {
    assert_eq!(&bytes[0..4], b"GBSI");
    assert_eq!(rd_u16(bytes, 4), 1);
    let bin_shift = bytes[6];
    assert_eq!(bytes[7], 0);
    let n = rd_u32(bytes, 8) as usize;
    let mut at = 12;
    let mut table = Vec::new();
    for _ in 0..n {
        let rid = rd_u32(bytes, at);
        let nl = rd_u16(bytes, at + 4) as usize;
        let name = bytes[at + 6..at + 6 + nl].to_vec();
        let length = rd_u64(bytes, at + 6 + nl);
        table.push((rid, name, length));
        at += 6 + nl + 8;
    }
    let trailer_start = rd_u64(bytes, bytes.len() - 8) as usize;
    let mut offsets = Vec::new();
    for k in 0..n {
        offsets.push(rd_u64(bytes, trailer_start + 8 * k) as usize);
    }
    let mut sections = Vec::new();
    for off in offsets.iter().copied().filter(|o| *o != 0) {
        let mut p = off;
        let reference_id = rd_u32(bytes, p);
        let min_bin = rd_u32(bytes, p + 4);
        let max_bin = rd_u32(bytes, p + 8);
        let n_snps = rd_u32(bytes, p + 12) as usize;
        p += 16;
        let nbins = (max_bin - min_bin + 1) as usize;
        let boundaries: Vec<u32> = (0..=nbins).map(|k| rd_u32(bytes, p + 4 * k)).collect();
        assert_eq!(boundaries[0], 0);
        assert_eq!(boundaries[nbins] as usize, n_snps);
        p += 4 * (nbins + 1);
        let mut records = Vec::new();
        for _ in 0..n_snps {
            let pos = rd_u32(bytes, p);
            let allele = bytes[p + 4];
            let flags = bytes[p + 5];
            let nl = bytes[p + 6] as usize;
            let name = bytes[p + 7..p + 7 + nl].to_vec();
            records.push((pos, allele, flags, name));
            p += 7 + nl;
        }
        sections.push(Section { reference_id, min_bin, max_bin, records });
    }
    (bin_shift, table, sections)
}

#[test]
fn single_contig_three_records() {
    let cfg = cfg_one_contig(1);
    let files = vec![lines(&["chr1\t100\t101\trs1", "chr1\t50\t51\trs2", "chr1\t100\t101\trs1"])];
    let (bytes, stats) = build_index(&cfg, &files).unwrap();
    assert_eq!(stats.n_records_read, 3);
    assert_eq!(stats.n_records_kept, 2);
    assert_eq!(stats.n_duplicates, 1);
    assert_eq!(stats.n_malformed, 0);
    assert_eq!(stats.n_skipped_unknown_contig, 0);
    let (shift, table, sections) = parse_index(&bytes);
    assert_eq!(shift, 8);
    assert_eq!(table, vec![(0, b"chr1".to_vec(), 1000)]);
    assert_eq!(sections.len(), 1);
    assert_eq!(sections[0].reference_id, 0);
    let pos: Vec<u32> = sections[0].records.iter().map(|r| r.0).collect();
    assert_eq!(pos, vec![50, 100]);
}

#[test]
fn stats_balance_holds() {
    let cfg = cfg_one_contig(2);
    let files = vec![lines(&[
        "chr1\t1\t2\ta",
        "chrX\t1\t2\tq",
        "chr1\t5\t9\tindel",
        "# comment",
        "track name=x",
        "",
        "chr1\t1\t2\ta",
    ])];
    let (_bytes, stats) = build_index(&cfg, &files).unwrap();
    assert_eq!(stats.n_records_read, 4);
    assert_eq!(
        stats.n_records_kept + stats.n_duplicates + stats.n_skipped_unknown_contig
            + stats.n_malformed,
        stats.n_records_read
    );
}

#[test]
fn two_files_two_contigs() {
    let contigs = vec![
        Contig::new(b"chr1".to_vec(), 1000, 0),
        Contig::new(b"chr2".to_vec(), 1000, 1),
    ];
    let cfg = IndexConfig {
        threads: 4,
        block_limit: 256,
        bin_shift: 8,
        registry: ContigRegistry::new(contigs, Vec::new()),
    };
    let files = vec![
        lines(&["chr1\t10\t11\ta", "chr2\t20\t21\tb"]),
        lines(&["chr1\t30\t31\tc", "chr2\t5\t6\td"]),
    ];
    let (bytes, stats) = build_index(&cfg, &files).unwrap();
    assert_eq!(stats.n_files, 2);
    assert_eq!(stats.n_records_kept, 4);
    let (_, _, sections) = parse_index(&bytes);
    assert_eq!(sections.len(), 2);
    assert_eq!(sections[0].reference_id, 0);
    let p0: Vec<u32> = sections[0].records.iter().map(|r| r.0).collect();
    assert_eq!(p0, vec![10, 30]);
    assert_eq!(sections[1].reference_id, 1);
    let p1: Vec<u32> = sections[1].records.iter().map(|r| r.0).collect();
    assert_eq!(p1, vec![5, 20]);
}

#[test]
fn unknown_contig_skipped() {
    let cfg = cfg_one_contig(1);
    let files = vec![lines(&["chrX\t1\t2\tq"])];
    let (bytes, stats) = build_index(&cfg, &files).unwrap();
    assert_eq!(stats.n_skipped_unknown_contig, 1);
    assert_eq!(stats.n_records_kept, 0);
    let (_, _, sections) = parse_index(&bytes);
    assert_eq!(sections.len(), 0);
}

#[test]
fn indel_counts_as_malformed() {
    let cfg = cfg_one_contig(1);
    let files = vec![lines(&["chr1\t100\t102\trsIndel"])];
    let (_bytes, stats) = build_index(&cfg, &files).unwrap();
    assert_eq!(stats.n_malformed, 1);
    assert_eq!(stats.n_records_kept, 0);
}

#[test]
fn zero_threads_refused() {
    let cfg = cfg_one_contig(0);
    let files = vec![lines(&["chr1\t1\t2\ta"])];
    assert_eq!(build_index(&cfg, &files).unwrap_err(), ConfigError::ZeroThreads);
}

#[test]
fn empty_contig_table_refused() {
    let cfg = IndexConfig {
        threads: 1,
        block_limit: 256,
        bin_shift: 8,
        registry: ContigRegistry::new(Vec::new(), Vec::new()),
    };
    let files = vec![lines(&["chr1\t1\t2\ta"])];
    assert_eq!(build_index(&cfg, &files).unwrap_err(), ConfigError::EmptyContigTable);
}

#[test]
fn builds_are_byte_identical() {
    let files = vec![lines(&["chr1\t100\t101\trs1", "chr1\t50\t51\trs2"])];
    let (b1, _) = build_index(&cfg_one_contig(1), &files).unwrap();
    let (b2, _) = build_index(&cfg_one_contig(1), &files).unwrap();
    assert_eq!(b1, b2);
}

#[test]
fn threads_do_not_change_output() {
    let files = vec![
        lines(&["chr1\t100\t101\trs1", "chr1\t50\t51\trs2", "chr1\t700\t701\trs3"]),
        lines(&["chr1\t260\t261\trs4"]),
    ];
    let (b1, _) = build_index(&cfg_one_contig(1), &files).unwrap();
    let (b4, _) = build_index(&cfg_one_contig(4), &files).unwrap();
    assert_eq!(b1, b4);
}

#[test]
fn block_limit_does_not_change_output() {
    let mut many = Vec::new();
    for contig in ["chr1", "chr2"] {
        for p in 0..300u32 {
            many.push(format!("{}\t{}\t{}\tr{}_{}", contig, 7 * p, 7 * p + 1, contig, p));
        }
    }
    let strs: Vec<&str> = many.iter().map(|s| s.as_str()).collect();
    let mk = |block_limit: usize| IndexConfig {
        threads: 8,
        block_limit,
        bin_shift: 8,
        registry: ContigRegistry::new(
            vec![
                Contig::new(b"chr1".to_vec(), 100000, 0),
                Contig::new(b"chr2".to_vec(), 100000, 1),
            ],
            Vec::new(),
        ),
    };
    let files = vec![lines(&strs)];
    let (b1, s1) = build_index(&mk(16), &files).unwrap();
    let (b2, s2) = build_index(&mk(256), &files).unwrap();
    assert_eq!(b1, b2);
    assert_eq!(s1.n_records_kept, 600);
    assert_eq!(s2.n_records_kept, 600);
}

#[test]
fn bins_respect_shift() {
    let cfg = cfg_one_contig(1);
    let files = vec![lines(&["chr1\t100\t101\ta", "chr1\t300\t301\tb", "chr1\t900\t901\tc"])];
    let (bytes, _) = build_index(&cfg, &files).unwrap();
    let (shift, _, sections) = parse_index(&bytes);
    let s = &sections[0];
    assert_eq!(s.min_bin, 100 >> shift);
    assert_eq!(s.max_bin, 900 >> shift);
    // each record decodes into the bin its position selects
    for (pos, _, _, _) in &s.records {
        assert!(s.min_bin <= (pos >> shift) && (pos >> shift) <= s.max_bin);
    }
}

#[test]
fn prefix_map_rewrites_names() {
    let contigs = vec![Contig::new(b"1".to_vec(), 1000, 0)];
    let pmap = vec![(b"chr".to_vec(), b"".to_vec())];
    let cfg = IndexConfig {
        threads: 1,
        block_limit: 256,
        bin_shift: 8,
        registry: ContigRegistry::new(contigs, pmap),
    };
    let files = vec![lines(&["chr1\t10\t11\ta", "1\t20\t21\tb"])];
    let (_bytes, stats) = build_index(&cfg, &files).unwrap();
    assert_eq!(stats.n_records_kept, 2);
    assert_eq!(stats.n_skipped_unknown_contig, 0);
}

#[test]
fn long_names_are_truncated() {
    let cfg = cfg_one_contig(1);
    let long = format!("chr1\t10\t11\t{}", "n".repeat(60));
    let files = vec![lines(&[long.as_str()])];
    let (bytes, stats) = build_index(&cfg, &files).unwrap();
    assert_eq!(stats.n_records_kept, 1);
    let (_, _, sections) = parse_index(&bytes);
    assert_eq!(sections[0].records[0].3.len(), 31);
}

#[test]
fn second_duplicate_wins() {
    let cfg = cfg_one_contig(1);
    // same position and name, different alleles: the later record's
    // alleles are kept
    let files = vec![lines(&["chr1\t10\t11\trs\t0\t+\tA\tC", "chr1\t10\t11\trs\t0\t+\tG\tT"])];
    let (bytes, stats) = build_index(&cfg, &files).unwrap();
    assert_eq!(stats.n_records_kept, 1);
    assert_eq!(stats.n_duplicates, 1);
    let (_, _, sections) = parse_index(&bytes);
    // G is 3, T is 4: packed as 0x34
    assert_eq!(sections[0].records[0].1, 0x34);
}

#[test]
fn allele_codes_pack_both_letters() {
    let cfg = cfg_one_contig(1);
    let files = vec![lines(&["chr1\t10\t11\trs\t0\t+\tA\tC"])];
    let (bytes, _) = build_index(&cfg, &files).unwrap();
    let (_, _, sections) = parse_index(&bytes);
    // A is 1, C is 2: packed as 0x12
    assert_eq!(sections[0].records[0].1, 0x12);
}

#[test]
fn start_must_be_a_u32() {
    let cfg = cfg_one_contig(1);
    let files = vec![lines(&[
        "chr1\t4294967295\t4294967296\tok_is_malformed_end",
        "chr1\t4294967296\t4294967297\tq",
        "chr1\tx\t1\tq",
    ])];
    let (_bytes, stats) = build_index(&cfg, &files).unwrap();
    // 4294967295 parses but its end does not fit u32; the others fail on
    // the start field
    assert_eq!(stats.n_malformed, 3);
}

#[test]
fn trailer_crc_matches_body() {
    let cfg = cfg_one_contig(3);
    let files = vec![lines(&["chr1\t100\t101\trs1", "chr1\t50\t51\trs2"])];
    let (bytes, _) = build_index(&cfg, &files).unwrap();
    let trailer_start = rd_u64(&bytes, bytes.len() - 8) as usize;
    let stored_crc = rd_u32(&bytes, bytes.len() - 12);
    let body = bytes[..trailer_start].to_vec();
    assert_eq!(stored_crc, gembs_dbsnp::crc::crc32c(&body));
}

#[test]
fn crc32c_known_value() {
    // the standard CRC-32C check value over the digits one to nine
    assert_eq!(gembs_dbsnp::crc::crc32c(&b"123456789".to_vec()), 0xE3069283);
}

#[test]
fn next_file_hands_each_path_once() {
    let mut cursor = InputFiles::new(vec![b"a.bed".to_vec(), b"b.bed".to_vec()]);
    assert_eq!(cursor.next_file(), Some(0));
    assert_eq!(cursor.next_file(), Some(1));
    assert_eq!(cursor.next_file(), None);
    assert_eq!(cursor.next_file(), None);
}

#[test]
fn sections_follow_reference_id_order() {
    // the table lists the larger reference id first; sections still come
    // out ordered by reference id
    let contigs = vec![
        Contig::new(b"chrB".to_vec(), 1000, 7),
        Contig::new(b"chrA".to_vec(), 1000, 3),
    ];
    let cfg = IndexConfig {
        threads: 1,
        block_limit: 256,
        bin_shift: 8,
        registry: ContigRegistry::new(contigs, Vec::new()),
    };
    let files = vec![lines(&["chrB\t10\t11\tb", "chrA\t20\t21\ta"])];
    let (bytes, _) = build_index(&cfg, &files).unwrap();
    let (_, _, sections) = parse_index(&bytes);
    assert_eq!(sections.len(), 2);
    assert!(sections[0].reference_id < sections[1].reference_id);
}

#[test]
fn many_records_across_many_contigs_all_kept() {
    let mut contigs = Vec::new();
    for c in 0..50u32 {
        contigs.push(Contig::new(format!("ctg{}", c).into_bytes(), 1 << 20, c));
    }
    let cfg = IndexConfig {
        threads: 8,
        block_limit: 16,
        bin_shift: 8,
        registry: ContigRegistry::new(contigs, Vec::new()),
    };
    let mut ls = Vec::new();
    for i in 0..10000u32 {
        let c = i % 50;
        let p = (i * 37) % (1 << 20);
        ls.push(format!("ctg{}\t{}\t{}\tr{}", c, p, p + 1, i).into_bytes());
    }
    let files = vec![ls];
    let (bytes, stats) = build_index(&cfg, &files).unwrap();
    assert_eq!(stats.n_records_read, 10000);
    assert_eq!(stats.n_records_kept + stats.n_duplicates, 10000);
    let (shift, _, sections) = parse_index(&bytes);
    let total: usize = sections.iter().map(|s| s.records.len()).sum();
    assert_eq!(total as u64, stats.n_records_kept);
    // within every section, positions never decrease and keys are unique,
    // and every record sits in a covered bin
    for s in &sections {
        for w in s.records.windows(2) {
            assert!(w[0].0 <= w[1].0);
            assert!(!(w[0].0 == w[1].0 && w[0].3 == w[1].3));
        }
        for (pos, _, _, _) in &s.records {
            assert!(s.min_bin <= (pos >> shift) && (pos >> shift) <= s.max_bin);
        }
    }
}
