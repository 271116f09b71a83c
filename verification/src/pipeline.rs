use vstd::prelude::*;

use crate::bytes::{push_bytes, push_u64_dec, spec_dec_digits};

verus! {

/// A configuration value, as the task planner sees it.
pub enum DataValue {
    Int(u64),
    String(Vec<u8>),
    FileType(Vec<u8>),
    Bool(bool),
    StringVec(Vec<Vec<u8>>),
}

/// " --" that introduces an option on a command line.
pub open spec fn spec_dashes() -> Seq<u8> {
    seq![0x20u8, 0x2Du8, 0x2Du8]
}

/// The words of a string-list option, each preceded by a space.
pub open spec fn spec_words(v: Seq<Seq<u8>>) -> Seq<u8>
    decreases v.len(),
{
    if v.len() == 0 {
        Seq::empty()
    } else {
        spec_words(v.drop_last()) + seq![0x20u8] + v.last()
    }
}

/// What one option contributes to a command line. Names starting with an
/// underscore are internal and contribute nothing.
pub open spec fn spec_opt_fragment(opt: Seq<u8>, val: DataValue) -> Seq<u8> {
    if opt.len() > 0 && opt[0] == 0x5F {
        Seq::empty()
    } else {
        match val {
            DataValue::Int(x) => spec_dashes() + opt + seq![0x20u8] + spec_dec_digits(x as nat),
            DataValue::String(s) => spec_dashes() + opt + seq![0x20u8] + s@,
            DataValue::FileType(s) => spec_dashes() + opt + seq![0x20u8] + s@,
            DataValue::Bool(b) => spec_dashes() + opt,
            DataValue::StringVec(v) => spec_dashes() + opt + spec_words(v.deep_view()),
        }
    }
}

/// The whole argument string: the task's own arguments followed by each
/// option's contribution, in option order.
pub open spec fn spec_arg_string(args: Seq<u8>, opts: Seq<(Seq<u8>, DataValue)>) -> Seq<u8>
    decreases opts.len(),
{
    if opts.len() == 0 {
        args
    } else {
        spec_arg_string(args, opts.drop_last()) + spec_opt_fragment(
            opts.last().0,
            opts.last().1,
        )
    }
}

/// Append one option's contribution.
fn push_opt_fragment(out: &mut Vec<u8>, opt: &Vec<u8>, val: &DataValue)
    ensures
        final(out)@ == old(out)@ + spec_opt_fragment(opt@, *val),
{
    if opt.len() > 0 && opt[0] == 0x5F {
        return ;
    }
    out.push(0x20);
    out.push(0x2D);
    out.push(0x2D);
    push_bytes(out, opt);
    let ghost base = old(out)@ + spec_dashes() + opt@;
    proof {
        assert(out@ =~= base);
    }
    match val {
        DataValue::Int(x) => {
            out.push(0x20);
            push_u64_dec(out, *x);
            proof {
                assert(out@ =~= old(out)@ + spec_opt_fragment(opt@, *val));
            }
        },
        DataValue::String(s) => {
            out.push(0x20);
            push_bytes(out, s);
            proof {
                assert(out@ =~= old(out)@ + spec_opt_fragment(opt@, *val));
            }
        },
        DataValue::FileType(s) => {
            out.push(0x20);
            push_bytes(out, s);
            proof {
                assert(out@ =~= old(out)@ + spec_opt_fragment(opt@, *val));
            }
        },
        DataValue::Bool(b) => {
            proof {
                assert(out@ =~= old(out)@ + spec_opt_fragment(opt@, *val));
            }
        },
        DataValue::StringVec(v) => {
            let mut k: usize = 0;
            proof {
                assert(v.deep_view().take(0) =~= Seq::<Seq<u8>>::empty());
                assert(out@ =~= base + spec_words(v.deep_view().take(0)));
            }
            while k < v.len()
                invariant
                    k <= v@.len(),
                    base == old(out)@ + spec_dashes() + opt@,
                    out@ == base + spec_words(v.deep_view().take(k as int)),
                decreases v@.len() - k,
            {
                out.push(0x20);
                push_bytes(out, &v[k]);
                proof {
                    assert(v.deep_view().take(k + 1).drop_last() =~= v.deep_view().take(k as int));
                    assert(v.deep_view().take(k + 1).last() == v@[k as int]@);
                    assert(out@ =~= base + spec_words(v.deep_view().take(k + 1)));
                }
                k = k + 1;
            }
            proof {
                assert(v.deep_view().take(v.deep_view().len() as int) =~= v.deep_view());
                assert(out@ =~= old(out)@ + spec_opt_fragment(opt@, *val));
            }
        },
    }
}

/// The command line for one task: its arguments plus every public option.
pub fn get_arg_string(args: &Vec<u8>, options: &Vec<(Vec<u8>, DataValue)>) -> (r: Vec<u8>)
    ensures
        r@ == spec_arg_string(
            args@,
            Seq::new(options@.len(), |i: int| (options@[i].0@, options@[i].1)),
        ),
{
    let ghost gopts = Seq::new(options@.len(), |i: int| (options@[i].0@, options@[i].1));
    let mut out: Vec<u8> = Vec::new();
    push_bytes(&mut out, args);
    let mut i: usize = 0;
    proof {
        assert(gopts.take(0) =~= Seq::<(Seq<u8>, DataValue)>::empty());
        assert(out@ =~= spec_arg_string(args@, gopts.take(0)));
    }
    while i < options.len()
        invariant
            i <= options@.len(),
            gopts == Seq::new(options@.len(), |k: int| (options@[k].0@, options@[k].1)),
            out@ == spec_arg_string(args@, gopts.take(i as int)),
        decreases options@.len() - i,
    {
        let (opt, val) = &options[i];
        push_opt_fragment(&mut out, opt, val);
        proof {
            assert(gopts.take(i + 1).drop_last() =~= gopts.take(i as int));
            assert(gopts.take(i + 1).last() == gopts[i as int]);
            assert(out@ =~= spec_arg_string(args@, gopts.take(i + 1)));
        }
        i = i + 1;
    }
    proof {
        assert(gopts.take(gopts.len() as int) =~= gopts);
    }
    out
}

/// One stage of a job pipeline: an executable path and its arguments.
/// What the scheduler will run; running it is not this library's work.
pub struct PipelineSpec {
    pub stages: Vec<(Vec<u8>, Vec<u8>)>,
    pub log: Option<Vec<u8>>,
}

/// `path` with every trailing ".gem" removed.
pub open spec fn spec_strip_gem(path: Seq<u8>) -> Seq<u8>
    decreases path.len(),
{
    if path.len() >= 4 && path.skip(path.len() - 4) == seq![0x2Eu8, 0x67u8, 0x65u8, 0x6Du8] {
        spec_strip_gem(path.take(path.len() - 4))
    } else {
        path
    }
}

/// Remove every trailing ".gem" from an index path.
pub fn strip_gem_suffix(path: &Vec<u8>) -> (r: Vec<u8>)
    ensures
        r@ == spec_strip_gem(path@),
    decreases path@.len(),
{
    let n = path.len();
    if n >= 4 && path[n - 4] == 0x2E && path[n - 3] == 0x67 && path[n - 2] == 0x65 && path[n - 1]
        == 0x6D {
        proof {
            assert(path@.skip(n - 4 as int) =~= seq![0x2Eu8, 0x67u8, 0x65u8, 0x6Du8]);
        }
        let mut shorter: Vec<u8> = Vec::new();
        let mut i: usize = 0;
        while i < n - 4
            invariant
                n == path@.len(),
                n >= 4,
                i <= n - 4,
                shorter@ == path@.take(i as int),
            decreases n - 4 - i,
        {
            shorter.push(path[i]);
            proof {
                assert(shorter@ =~= path@.take(i + 1));
            }
            i = i + 1;
        }
        strip_gem_suffix(&shorter)
    } else {
        proof {
            if path@.len() >= 4 {
                if path@.skip(path@.len() - 4) =~= seq![0x2Eu8, 0x67u8, 0x65u8, 0x6Du8] {
                    assert(path@[path@.len() - 4] == 0x2E);
                    assert(path@[path@.len() - 3] == 0x67);
                    assert(path@[path@.len() - 2] == 0x65);
                    assert(path@[path@.len() - 1] == 0x6D);
                }
            }
        }
        let mut out: Vec<u8> = Vec::new();
        push_bytes(&mut out, path);
        proof {
            assert(out@ =~= path@);
        }
        out
    }
}

/// The arguments handed to the GEM indexer.
pub open spec fn spec_gem_index_args(
    reference: Seq<u8>,
    index_base: Seq<u8>,
    bisulfite: bool,
    sampling_rate: Option<u64>,
    threads: Option<u64>,
    tmp_dir: Option<Seq<u8>>,
) -> Seq<u8> {
    let head = seq![0x2Du8, 0x69u8, 0x20u8] + reference + seq![0x20u8, 0x2Du8, 0x6Fu8, 0x20u8]
        + index_base + seq![0x20u8];
    let bs = if bisulfite {
        spec_lit_bisulfite()
    } else {
        Seq::<u8>::empty()
    };
    let sr = match sampling_rate {
        Some(x) => spec_lit_sampling() + spec_dec_digits(x as nat) + seq![0x20u8],
        None => Seq::<u8>::empty(),
    };
    let th = match threads {
        Some(x) => spec_lit_threads() + spec_dec_digits(x as nat) + seq![0x20u8],
        None => Seq::<u8>::empty(),
    };
    let tf = match tmp_dir {
        Some(d) => spec_lit_tmp() + d,
        None => Seq::<u8>::empty(),
    };
    head + bs + sr + th + tf
}

/// "--bisulfite-index " as bytes.
pub open spec fn spec_lit_bisulfite() -> Seq<u8> {
    seq![
        0x2Du8, 0x2Du8, 0x62u8, 0x69u8, 0x73u8, 0x75u8, 0x6Cu8, 0x66u8, 0x69u8, 0x74u8, 0x65u8,
        0x2Du8, 0x69u8, 0x6Eu8, 0x64u8, 0x65u8, 0x78u8, 0x20u8,
    ]
}

/// "--text-sampling-rate " as bytes.
pub open spec fn spec_lit_sampling() -> Seq<u8> {
    seq![
        0x2Du8, 0x2Du8, 0x74u8, 0x65u8, 0x78u8, 0x74u8, 0x2Du8, 0x73u8, 0x61u8, 0x6Du8, 0x70u8,
        0x6Cu8, 0x69u8, 0x6Eu8, 0x67u8, 0x2Du8, 0x72u8, 0x61u8, 0x74u8, 0x65u8, 0x20u8,
    ]
}

/// "--threads " as bytes.
pub open spec fn spec_lit_threads() -> Seq<u8> {
    seq![0x2Du8, 0x2Du8, 0x74u8, 0x68u8, 0x72u8, 0x65u8, 0x61u8, 0x64u8, 0x73u8, 0x20u8]
}

/// "--tmp-folder " as bytes.
pub open spec fn spec_lit_tmp() -> Seq<u8> {
    seq![
        0x2Du8, 0x2Du8, 0x74u8, 0x6Du8, 0x70u8, 0x2Du8, 0x66u8, 0x6Fu8, 0x6Cu8, 0x64u8, 0x65u8,
        0x72u8, 0x20u8,
    ]
}

fn push_lit_bisulfite(out: &mut Vec<u8>)
    ensures
        final(out)@ == old(out)@ + spec_lit_bisulfite(),
{
    let lit: [u8; 18] = [
        0x2D, 0x2D, 0x62, 0x69, 0x73, 0x75, 0x6C, 0x66, 0x69, 0x74, 0x65, 0x2D, 0x69, 0x6E, 0x64,
        0x65, 0x78, 0x20,
    ];
    let mut i: usize = 0;
    while i < 18
        invariant
            i <= 18,
            lit@ == spec_lit_bisulfite(),
            out@ == old(out)@ + lit@.take(i as int),
        decreases 18 - i,
    {
        out.push(lit[i]);
        proof {
            assert(out@ =~= old(out)@ + lit@.take(i + 1));
        }
        i = i + 1;
    }
    proof {
        assert(lit@.take(18) =~= lit@);
    }
}

fn push_lit_sampling(out: &mut Vec<u8>)
    ensures
        final(out)@ == old(out)@ + spec_lit_sampling(),
{
    let lit: [u8; 21] = [
        0x2D, 0x2D, 0x74, 0x65, 0x78, 0x74, 0x2D, 0x73, 0x61, 0x6D, 0x70, 0x6C, 0x69, 0x6E, 0x67,
        0x2D, 0x72, 0x61, 0x74, 0x65, 0x20,
    ];
    let mut i: usize = 0;
    while i < 21
        invariant
            i <= 21,
            lit@ == spec_lit_sampling(),
            out@ == old(out)@ + lit@.take(i as int),
        decreases 21 - i,
    {
        out.push(lit[i]);
        proof {
            assert(out@ =~= old(out)@ + lit@.take(i + 1));
        }
        i = i + 1;
    }
    proof {
        assert(lit@.take(21) =~= lit@);
    }
}

fn push_lit_threads(out: &mut Vec<u8>)
    ensures
        final(out)@ == old(out)@ + spec_lit_threads(),
{
    let lit: [u8; 10] = [0x2D, 0x2D, 0x74, 0x68, 0x72, 0x65, 0x61, 0x64, 0x73, 0x20];
    let mut i: usize = 0;
    while i < 10
        invariant
            i <= 10,
            lit@ == spec_lit_threads(),
            out@ == old(out)@ + lit@.take(i as int),
        decreases 10 - i,
    {
        out.push(lit[i]);
        proof {
            assert(out@ =~= old(out)@ + lit@.take(i + 1));
        }
        i = i + 1;
    }
    proof {
        assert(lit@.take(10) =~= lit@);
    }
}

fn push_lit_tmp(out: &mut Vec<u8>)
    ensures
        final(out)@ == old(out)@ + spec_lit_tmp(),
{
    let lit: [u8; 13] = [
        0x2D, 0x2D, 0x74, 0x6D, 0x70, 0x2D, 0x66, 0x6F, 0x6C, 0x64, 0x65, 0x72, 0x20,
    ];
    let mut i: usize = 0;
    while i < 13
        invariant
            i <= 13,
            lit@ == spec_lit_tmp(),
            out@ == old(out)@ + lit@.take(i as int),
        decreases 13 - i,
    {
        out.push(lit[i]);
        proof {
            assert(out@ =~= old(out)@ + lit@.take(i + 1));
        }
        i = i + 1;
    }
    proof {
        assert(lit@.take(13) =~= lit@);
    }
}

/// Plan the GEM-indexer job: one stage whose arguments name the
/// reference, the index base path, and the tuning options.
pub fn make_gem_index(
    indexer_path: &Vec<u8>,
    reference: &Vec<u8>,
    index_path: &Vec<u8>,
    bisulfite: bool,
    sampling_rate: Option<u64>,
    threads: Option<u64>,
    tmp_dir: Option<&Vec<u8>>,
    log: Option<&Vec<u8>>,
) -> (p: PipelineSpec)
    ensures
        p.stages@.len() == 1,
        p.stages@[0].0@ == indexer_path@,
        p.stages@[0].1@ == spec_gem_index_args(
            reference@,
            spec_strip_gem(index_path@),
            bisulfite,
            sampling_rate,
            threads,
            match tmp_dir {
                Some(d) => Some(d@),
                None => None,
            },
        ),
        match (p.log, log) {
            (Some(a), Some(b)) => a@ == b@,
            (None, None) => true,
            _ => false,
        },
{
    let base = strip_gem_suffix(index_path);
    let mut args: Vec<u8> = Vec::new();
    args.push(0x2D);
    args.push(0x69);
    args.push(0x20);
    push_bytes(&mut args, reference);
    args.push(0x20);
    args.push(0x2D);
    args.push(0x6F);
    args.push(0x20);
    push_bytes(&mut args, &base);
    args.push(0x20);
    let ghost head = seq![0x2Du8, 0x69u8, 0x20u8] + reference@ + seq![
        0x20u8,
        0x2Du8,
        0x6Fu8,
        0x20u8,
    ] + base@ + seq![0x20u8];
    proof {
        assert(args@ =~= head);
    }
    if bisulfite {
        push_lit_bisulfite(&mut args);
    }
    let ghost with_bs = args@;
    match sampling_rate {
        Some(x) => {
            push_lit_sampling(&mut args);
            push_u64_dec(&mut args, x);
            args.push(0x20);
        },
        None => {},
    }
    let ghost with_sr = args@;
    match threads {
        Some(x) => {
            push_lit_threads(&mut args);
            push_u64_dec(&mut args, x);
            args.push(0x20);
        },
        None => {},
    }
    let ghost with_th = args@;
    match tmp_dir {
        Some(d) => {
            push_lit_tmp(&mut args);
            push_bytes(&mut args, d);
        },
        None => {},
    }
    proof {
        assert(args@ =~= spec_gem_index_args(
            reference@,
            spec_strip_gem(index_path@),
            bisulfite,
            sampling_rate,
            threads,
            match tmp_dir {
                Some(d) => Some(d@),
                None => None,
            },
        ));
    }
    let mut exe: Vec<u8> = Vec::new();
    push_bytes(&mut exe, indexer_path);
    proof {
        assert(exe@ =~= indexer_path@);
    }
    let mut stages: Vec<(Vec<u8>, Vec<u8>)> = Vec::new();
    stages.push((exe, args));
    let lg = match log {
        Some(l) => {
            let mut c: Vec<u8> = Vec::new();
            push_bytes(&mut c, l);
            proof {
                assert(c@ =~= l@);
            }
            Some(c)
        },
        None => None,
    };
    PipelineSpec { stages, log: lg }
}

/// Plan the dbSNP-index job. The builder runs inside this process, so the
/// plan carries no external stage.
pub fn make_dbsnp_index(log: Option<&Vec<u8>>) -> (p: PipelineSpec)
    ensures
        p.stages@.len() == 0,
        match (p.log, log) {
            (Some(a), Some(b)) => a@ == b@,
            (None, None) => true,
            _ => false,
        },
{
    let lg = match log {
        Some(l) => {
            let mut c: Vec<u8> = Vec::new();
            push_bytes(&mut c, l);
            proof {
                assert(c@ =~= l@);
            }
            Some(c)
        },
        None => None,
    };
    PipelineSpec { stages: Vec::new(), log: lg }
}

/// Which index kinds the sample sheet calls for: a sample with bisulfite
/// treatment (or nothing said) needs the bisulfite index; one marked
/// untreated needs the plain index.
pub fn check_index_requirements(samples: &Vec<Option<bool>>) -> (r: (bool, bool))
    ensures
        r.0 == exists|i: int|
            0 <= i < samples@.len() && (samples@[i] is None || samples@[i] == Some(true)),
        r.1 == exists|i: int| 0 <= i < samples@.len() && samples@[i] == Some(false),
{
    let mut need_bs = false;
    let mut need_nonbs = false;
    let mut i: usize = 0;
    while i < samples.len()
        invariant
            i <= samples@.len(),
            need_bs == exists|j: int|
                0 <= j < i && (samples@[j] is None || samples@[j] == Some(true)),
            need_nonbs == exists|j: int| 0 <= j < i && samples@[j] == Some(false),
        decreases samples@.len() - i,
    {
        match samples[i] {
            Some(b) => {
                if b {
                    need_bs = true;
                } else {
                    need_nonbs = true;
                }
            },
            None => {
                need_bs = true;
            },
        }
        i = i + 1;
    }
    (need_bs, need_nonbs)
}

/// One planned task of the job graph.
pub struct TaskSpec {
    pub id: Vec<u8>,
    pub args: Vec<u8>,
    pub inputs: Vec<usize>,
    pub outputs: Vec<usize>,
}

/// Append the task that builds one GEM index from the compressed
/// reference asset.
pub fn add_make_index_task(
    tasks: &mut Vec<TaskSpec>,
    idx_name: &Vec<u8>,
    command_args: &Vec<u8>,
    gref_asset: usize,
    index_asset: usize,
)
    ensures
        final(tasks)@.len() == old(tasks)@.len() + 1,
        forall|i: int| 0 <= i < old(tasks)@.len() ==> #[trigger] final(tasks)@[i]
            == old(tasks)@[i],
        final(tasks)@.last().id@ == idx_name@,
        final(tasks)@.last().args@ == command_args@,
        final(tasks)@.last().inputs@ == seq![gref_asset],
        final(tasks)@.last().outputs@ == seq![index_asset],
{
    let mut id: Vec<u8> = Vec::new();
    push_bytes(&mut id, idx_name);
    let mut args: Vec<u8> = Vec::new();
    push_bytes(&mut args, command_args);
    let mut inputs: Vec<usize> = Vec::new();
    inputs.push(gref_asset);
    let mut outputs: Vec<usize> = Vec::new();
    outputs.push(index_asset);
    proof {
        assert(id@ =~= idx_name@);
        assert(args@ =~= command_args@);
        assert(inputs@ =~= seq![gref_asset]);
        assert(outputs@ =~= seq![index_asset]);
    }
    tasks.push(TaskSpec { id, args, inputs, outputs });
}

/// "index" as bytes.
pub open spec fn spec_id_index() -> Seq<u8> {
    seq![0x69u8, 0x6Eu8, 0x64u8, 0x65u8, 0x78u8]
}

/// "nonbs_index" as bytes.
pub open spec fn spec_id_nonbs_index() -> Seq<u8> {
    seq![0x6Eu8, 0x6Fu8, 0x6Eu8, 0x62u8, 0x73u8, 0x5Fu8, 0x69u8, 0x6Eu8, 0x64u8, 0x65u8, 0x78u8]
}

/// "dbsnp_index" as bytes.
pub open spec fn spec_id_dbsnp_index() -> Seq<u8> {
    seq![0x64u8, 0x62u8, 0x73u8, 0x6Eu8, 0x70u8, 0x5Fu8, 0x69u8, 0x6Eu8, 0x64u8, 0x65u8, 0x78u8]
}

fn lit_index() -> (v: Vec<u8>)
    ensures
        v@ == spec_id_index(),
{
    let mut v: Vec<u8> = Vec::new();
    v.push(0x69);
    v.push(0x6E);
    v.push(0x64);
    v.push(0x65);
    v.push(0x78);
    proof {
        assert(v@ =~= spec_id_index());
    }
    v
}

fn lit_nonbs_index() -> (v: Vec<u8>)
    ensures
        v@ == spec_id_nonbs_index(),
{
    let mut v: Vec<u8> = Vec::new();
    v.push(0x6E);
    v.push(0x6F);
    v.push(0x6E);
    v.push(0x62);
    v.push(0x73);
    v.push(0x5F);
    v.push(0x69);
    v.push(0x6E);
    v.push(0x64);
    v.push(0x65);
    v.push(0x78);
    proof {
        assert(v@ =~= spec_id_nonbs_index());
    }
    v
}

fn lit_dbsnp_index() -> (v: Vec<u8>)
    ensures
        v@ == spec_id_dbsnp_index(),
{
    let mut v: Vec<u8> = Vec::new();
    v.push(0x64);
    v.push(0x62);
    v.push(0x73);
    v.push(0x6E);
    v.push(0x70);
    v.push(0x5F);
    v.push(0x69);
    v.push(0x6E);
    v.push(0x64);
    v.push(0x65);
    v.push(0x78);
    proof {
        assert(v@ =~= spec_id_dbsnp_index());
    }
    v
}

/// Plan the job for one index task, by the task's identifier: the GEM
/// bisulfite index, the GEM plain index, or the dbSNP index. Other task
/// identifiers name no index and are not accepted.
pub fn make_index_pipeline(
    task_id: &Vec<u8>,
    indexer_path: &Vec<u8>,
    reference: &Vec<u8>,
    index_path: &Vec<u8>,
    nonbs_index_path: &Vec<u8>,
    sampling_rate: Option<u64>,
    threads: Option<u64>,
    tmp_dir: Option<&Vec<u8>>,
    log: Option<&Vec<u8>>,
) -> (p: PipelineSpec)
    requires
        task_id@ == spec_id_index() || task_id@ == spec_id_nonbs_index() || task_id@
            == spec_id_dbsnp_index(),
    ensures
        task_id@ == spec_id_index() ==> p.stages@.len() == 1 && p.stages@[0].0@ == indexer_path@
            && p.stages@[0].1@ == spec_gem_index_args(
            reference@,
            spec_strip_gem(index_path@),
            true,
            sampling_rate,
            threads,
            match tmp_dir {
                Some(d) => Some(d@),
                None => None,
            },
        ),
        task_id@ == spec_id_nonbs_index() ==> p.stages@.len() == 1 && p.stages@[0].0@
            == indexer_path@ && p.stages@[0].1@ == spec_gem_index_args(
            reference@,
            spec_strip_gem(nonbs_index_path@),
            false,
            sampling_rate,
            threads,
            match tmp_dir {
                Some(d) => Some(d@),
                None => None,
            },
        ),
        task_id@ == spec_id_dbsnp_index() ==> p.stages@.len() == 0,
        match (p.log, log) {
            (Some(a), Some(b)) => a@ == b@,
            (None, None) => true,
            _ => false,
        },
{
    if crate::binstore::bytes_eq(task_id, &lit_index()) {
        make_gem_index(
            indexer_path,
            reference,
            index_path,
            true,
            sampling_rate,
            threads,
            tmp_dir,
            log,
        )
    } else if crate::binstore::bytes_eq(task_id, &lit_nonbs_index()) {
        make_gem_index(
            indexer_path,
            reference,
            nonbs_index_path,
            false,
            sampling_rate,
            threads,
            tmp_dir,
            log,
        )
    } else {
        make_dbsnp_index(log)
    }
}

/// Assets a report run must wait for. The report stage draws on no
/// assets of its own yet, so the list is empty.
pub fn collect_assets() -> (r: Vec<usize>)
    ensures
        r@.len() == 0,
{
    Vec::new()
}

/// "--bs-index" as bytes.
pub open spec fn spec_args_bs_index() -> Seq<u8> {
    seq![0x2Du8, 0x2Du8, 0x62u8, 0x73u8, 0x2Du8, 0x69u8, 0x6Eu8, 0x64u8, 0x65u8, 0x78u8]
}

/// "--nonbs-index" as bytes.
pub open spec fn spec_args_nonbs_index() -> Seq<u8> {
    seq![
        0x2Du8, 0x2Du8, 0x6Eu8, 0x6Fu8, 0x6Eu8, 0x62u8, 0x73u8, 0x2Du8, 0x69u8, 0x6Eu8, 0x64u8,
        0x65u8, 0x78u8,
    ]
}

fn lit_args_bs_index() -> (v: Vec<u8>)
    ensures
        v@ == spec_args_bs_index(),
{
    let mut v: Vec<u8> = Vec::new();
    v.push(0x2D);
    v.push(0x2D);
    v.push(0x62);
    v.push(0x73);
    v.push(0x2D);
    v.push(0x69);
    v.push(0x6E);
    v.push(0x64);
    v.push(0x65);
    v.push(0x78);
    proof {
        assert(v@ =~= spec_args_bs_index());
    }
    v
}

fn lit_args_nonbs_index() -> (v: Vec<u8>)
    ensures
        v@ == spec_args_nonbs_index(),
{
    let mut v: Vec<u8> = Vec::new();
    v.push(0x2D);
    v.push(0x2D);
    v.push(0x6E);
    v.push(0x6F);
    v.push(0x6E);
    v.push(0x62);
    v.push(0x73);
    v.push(0x2D);
    v.push(0x69);
    v.push(0x6E);
    v.push(0x64);
    v.push(0x65);
    v.push(0x78);
    proof {
        assert(v@ =~= spec_args_nonbs_index());
    }
    v
}

/// Plan the index-building tasks the sample sheet calls for: one task per
/// needed index kind, each turning the compressed reference asset into
/// its index asset.
pub fn make_index_tasks(
    tasks: &mut Vec<TaskSpec>,
    need_bs_index: bool,
    need_nonbs_index: bool,
    gref_asset: usize,
    index_asset: usize,
    nonbs_index_asset: usize,
)
    ensures
        final(tasks)@.len() == old(tasks)@.len() + (if need_bs_index {
            1int
        } else {
            0int
        }) + (if need_nonbs_index {
            1int
        } else {
            0int
        }),
        forall|i: int| 0 <= i < old(tasks)@.len() ==> #[trigger] final(tasks)@[i]
            == old(tasks)@[i],
        need_bs_index ==> {
            &&& final(tasks)@[old(tasks)@.len() as int].id@ == spec_id_index()
            &&& final(tasks)@[old(tasks)@.len() as int].args@ == spec_args_bs_index()
            &&& final(tasks)@[old(tasks)@.len() as int].inputs@ == seq![gref_asset]
            &&& final(tasks)@[old(tasks)@.len() as int].outputs@ == seq![index_asset]
        },
        need_nonbs_index ==> {
            &&& final(tasks)@.last().id@ == spec_id_nonbs_index()
            &&& final(tasks)@.last().args@ == spec_args_nonbs_index()
            &&& final(tasks)@.last().inputs@ == seq![gref_asset]
            &&& final(tasks)@.last().outputs@ == seq![nonbs_index_asset]
        },
{
    if need_bs_index {
        add_make_index_task(tasks, &lit_index(), &lit_args_bs_index(), gref_asset, index_asset);
    }
    if need_nonbs_index {
        add_make_index_task(
            tasks,
            &lit_nonbs_index(),
            &lit_args_nonbs_index(),
            gref_asset,
            nonbs_index_asset,
        );
    }
}

/// "dbSNP_gemBS.idx", the default index file name.
pub open spec fn spec_dbsnp_default_name() -> Seq<u8> {
    seq![
        0x64u8, 0x62u8, 0x53u8, 0x4Eu8, 0x50u8, 0x5Fu8, 0x67u8, 0x65u8, 0x6Du8, 0x42u8, 0x53u8,
        0x2Eu8, 0x69u8, 0x64u8, 0x78u8,
    ]
}

/// Where the dbSNP index goes: the configured path if there is one, else
/// the default file name under the index directory (or the working
/// directory).
pub open spec fn spec_dbsnp_index_path(
    configured: Option<Seq<u8>>,
    index_dir: Option<Seq<u8>>,
) -> Seq<u8> {
    match configured {
        Some(p) => p,
        None => match index_dir {
            Some(d) => d + seq![0x2Fu8] + spec_dbsnp_default_name(),
            None => seq![0x2Eu8, 0x2Fu8] + spec_dbsnp_default_name(),
        },
    }
}

fn push_dbsnp_default_name(out: &mut Vec<u8>)
    ensures
        final(out)@ == old(out)@ + spec_dbsnp_default_name(),
{
    let lit: [u8; 15] = [
        0x64, 0x62, 0x53, 0x4E, 0x50, 0x5F, 0x67, 0x65, 0x6D, 0x42, 0x53, 0x2E, 0x69, 0x64, 0x78,
    ];
    let mut i: usize = 0;
    while i < 15
        invariant
            i <= 15,
            lit@ == spec_dbsnp_default_name(),
            out@ == old(out)@ + lit@.take(i as int),
        decreases 15 - i,
    {
        out.push(lit[i]);
        proof {
            assert(out@ =~= old(out)@ + lit@.take(i + 1));
        }
        i = i + 1;
    }
    proof {
        assert(lit@.take(15) =~= lit@);
    }
}

/// Plan the dbSNP-index task: settle the index path, then add the task
/// that turns the listed dbSNP files (assets `first_file_asset` on) into
/// the index asset right after them.
pub fn make_dbsnp_tasks(
    tasks: &mut Vec<TaskSpec>,
    n_dbsnp_files: usize,
    first_file_asset: usize,
    index_asset: usize,
    configured_index: Option<&Vec<u8>>,
    index_dir: Option<&Vec<u8>>,
) -> (idx_path: Vec<u8>)
    requires
        first_file_asset + n_dbsnp_files <= usize::MAX,
    ensures
        idx_path@ == spec_dbsnp_index_path(
            match configured_index {
                Some(p) => Some(p@),
                None => None,
            },
            match index_dir {
                Some(d) => Some(d@),
                None => None,
            },
        ),
        final(tasks)@.len() == old(tasks)@.len() + 1,
        forall|i: int| 0 <= i < old(tasks)@.len() ==> #[trigger] final(tasks)@[i]
            == old(tasks)@[i],
        final(tasks)@.last().id@ == spec_id_dbsnp_index(),
        final(tasks)@.last().inputs@ == Seq::new(
            n_dbsnp_files as nat,
            |i: int| (first_file_asset + i) as usize,
        ),
        final(tasks)@.last().outputs@ == seq![index_asset],
{
    let mut idx_path: Vec<u8> = Vec::new();
    match configured_index {
        Some(p) => {
            push_bytes(&mut idx_path, p);
            proof {
                assert(idx_path@ =~= p@);
            }
        },
        None => {
            match index_dir {
                Some(d) => {
                    push_bytes(&mut idx_path, d);
                    idx_path.push(0x2F);
                },
                None => {
                    idx_path.push(0x2E);
                    idx_path.push(0x2F);
                },
            }
            push_dbsnp_default_name(&mut idx_path);
            proof {
                assert(idx_path@ =~= spec_dbsnp_index_path(
                    None,
                    match index_dir {
                        Some(d) => Some(d@),
                        None => None,
                    },
                ));
            }
        },
    }
    let mut inputs: Vec<usize> = Vec::new();
    let mut i: usize = 0;
    while i < n_dbsnp_files
        invariant
            i <= n_dbsnp_files,
            first_file_asset + n_dbsnp_files <= usize::MAX,
            inputs@ == Seq::new(i as nat, |k: int| (first_file_asset + k) as usize),
        decreases n_dbsnp_files - i,
    {
        inputs.push(first_file_asset + i);
        proof {
            assert(inputs@ =~= Seq::new((i + 1) as nat, |k: int| (first_file_asset + k) as usize));
        }
        i = i + 1;
    }
    let mut outputs: Vec<usize> = Vec::new();
    outputs.push(index_asset);
    let id = lit_dbsnp_index();
    let mut args: Vec<u8> = Vec::new();
    push_bytes(&mut args, &idx_path);
    proof {
        assert(outputs@ =~= seq![index_asset]);
    }
    tasks.push(TaskSpec { id, args, inputs, outputs });
    idx_path
}

} // verus!
