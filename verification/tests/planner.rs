use gembs_dbsnp::pipeline::{
    check_index_requirements, collect_assets, get_arg_string, make_dbsnp_index, make_dbsnp_tasks,
    make_gem_index, make_index_pipeline, make_index_tasks, strip_gem_suffix, DataValue,
};

#[test]
fn arg_string_formats_each_value_kind() {
    let args = b"--dbsnp-index".to_vec();
    let options = vec![
        (b"threads".to_vec(), DataValue::Int(8)),
        (b"_internal".to_vec(), DataValue::Bool(true)),
        (b"json".to_vec(), DataValue::String(b"out.json".to_vec())),
        (b"quiet".to_vec(), DataValue::Bool(true)),
        (b"samples".to_vec(), DataValue::StringVec(vec![b"s1".to_vec(), b"s2".to_vec()])),
    ];
    let r = get_arg_string(&args, &options);
    assert_eq!(
        String::from_utf8(r).unwrap(),
        "--dbsnp-index --threads 8 --json out.json --quiet --samples s1 s2"
    );
}

#[test]
fn gem_suffix_is_stripped() {
    assert_eq!(strip_gem_suffix(&b"ref.BS.gem".to_vec()), b"ref.BS".to_vec());
    assert_eq!(strip_gem_suffix(&b"ref.gem.gem".to_vec()), b"ref".to_vec());
    assert_eq!(strip_gem_suffix(&b"plain".to_vec()), b"plain".to_vec());
}

#[test]
fn gem_index_stage_holds_all_options() {
    let p = make_gem_index(
        &b"/usr/bin/gem-indexer".to_vec(),
        &b"ref.fa".to_vec(),
        &b"idx/ref.BS.gem".to_vec(),
        true,
        Some(4),
        Some(8),
        Some(&b"idx".to_vec()),
        None,
    );
    assert_eq!(p.stages.len(), 1);
    assert_eq!(p.stages[0].0, b"/usr/bin/gem-indexer".to_vec());
    assert_eq!(
        String::from_utf8(p.stages[0].1.clone()).unwrap(),
        "-i ref.fa -o idx/ref.BS --bisulfite-index --text-sampling-rate 4 --threads 8 --tmp-folder idx"
    );
    assert!(p.log.is_none());
}

#[test]
fn index_pipeline_picks_the_task() {
    let p = make_index_pipeline(
        &b"dbsnp_index".to_vec(),
        &b"gem-indexer".to_vec(),
        &b"ref.fa".to_vec(),
        &b"a.gem".to_vec(),
        &b"b.gem".to_vec(),
        None,
        None,
        None,
        Some(&b"log.txt".to_vec()),
    );
    assert_eq!(p.stages.len(), 0);
    assert_eq!(p.log, Some(b"log.txt".to_vec()));

    let q = make_index_pipeline(
        &b"nonbs_index".to_vec(),
        &b"gem-indexer".to_vec(),
        &b"ref.fa".to_vec(),
        &b"a.gem".to_vec(),
        &b"b.gem".to_vec(),
        None,
        None,
        None,
        None,
    );
    assert_eq!(q.stages.len(), 1);
    assert_eq!(String::from_utf8(q.stages[0].1.clone()).unwrap(), "-i ref.fa -o b ");
}

#[test]
fn dbsnp_pipeline_runs_no_external_stage() {
    let p = make_dbsnp_index(None);
    assert_eq!(p.stages.len(), 0);
    assert!(p.log.is_none());
}

#[test]
fn index_requirements_follow_sample_metadata() {
    assert_eq!(check_index_requirements(&vec![]), (false, false));
    assert_eq!(check_index_requirements(&vec![None]), (true, false));
    assert_eq!(check_index_requirements(&vec![Some(true), Some(false)]), (true, true));
    assert_eq!(check_index_requirements(&vec![Some(false)]), (false, true));
}

#[test]
fn report_assets_are_empty_for_now() {
    assert_eq!(collect_assets().len(), 0);
}

#[test]
fn index_tasks_follow_the_needs() {
    let mut tasks = Vec::new();
    make_index_tasks(&mut tasks, true, true, 0, 1, 2);
    assert_eq!(tasks.len(), 2);
    assert_eq!(tasks[0].id, b"index".to_vec());
    assert_eq!(tasks[0].args, b"--bs-index".to_vec());
    assert_eq!(tasks[0].inputs, vec![0]);
    assert_eq!(tasks[0].outputs, vec![1]);
    assert_eq!(tasks[1].id, b"nonbs_index".to_vec());
    assert_eq!(tasks[1].args, b"--nonbs-index".to_vec());
    assert_eq!(tasks[1].outputs, vec![2]);

    let mut none_needed = Vec::new();
    make_index_tasks(&mut none_needed, false, false, 0, 1, 2);
    assert!(none_needed.is_empty());
}

#[test]
fn dbsnp_task_settles_the_index_path() {
    let mut tasks = Vec::new();
    let path = make_dbsnp_tasks(&mut tasks, 2, 5, 7, None, Some(&b"idx".to_vec()));
    assert_eq!(path, b"idx/dbSNP_gemBS.idx".to_vec());
    assert_eq!(tasks.len(), 1);
    assert_eq!(tasks[0].id, b"dbsnp_index".to_vec());
    assert_eq!(tasks[0].inputs, vec![5, 6]);
    assert_eq!(tasks[0].outputs, vec![7]);

    let mut t2 = Vec::new();
    assert_eq!(make_dbsnp_tasks(&mut t2, 0, 0, 0, None, None), b"./dbSNP_gemBS.idx".to_vec());
    let mut t3 = Vec::new();
    assert_eq!(
        make_dbsnp_tasks(&mut t3, 0, 0, 0, Some(&b"my.idx".to_vec()), None),
        b"my.idx".to_vec()
    );
}
