use k2::benchmark::{Benchmark, TAG_PATH};
use k2::config::Config;
use k2::error::K2Error;
use k2::experiment::{benchmark_index, status_of, ExperimentBuilder, Step};
use k2::lang_impl::{GenericNativeCode, GenericScriptingVm, LangImpl};
use k2::limit::Limit;
use k2::manifest::{JobStatus, ManifestHeader};

fn header(ordering: &str) -> ManifestHeader {
    let text = format!("num_reboots=00000000\nnext_idx=0000\nordering={}", ordering);
    ManifestHeader::parse(&text.into_bytes()).unwrap()
}

#[test]
fn job_seven_of_three_benchmarks() {
    assert_eq!(benchmark_index(7, 3), 1);
    assert_eq!(benchmark_index(0, 3), 0);
    assert_eq!(benchmark_index(5, 1), 0);
}

#[test]
fn outcome_classification() {
    assert_eq!(status_of(&Ok(())), JobStatus::Done);
    assert_eq!(status_of(&Err(K2Error::RerunError)), JobStatus::Outstanding);
    assert_eq!(status_of(&Err(K2Error::ExecutionFailed)), JobStatus::Error);
    assert_eq!(status_of(&Err(K2Error::Unknown)), JobStatus::Error);
}

#[test]
fn reboots_counted_per_iteration() {
    let vm = GenericScriptingVm::new("/usr/bin/python3");
    let a = Benchmark::new("a.py", &vm);
    let b = Benchmark::new("b.py", &vm);
    let builder = ExperimentBuilder::new("results").benchmark(&a).benchmark(&b).pexecs(3);
    let n = builder.num_jobs().unwrap();
    assert_eq!(n, 6);
    let mut exp = builder.build(ManifestHeader::new(n), true);
    let outcomes = [
        Ok(()),
        Err(K2Error::RerunError),
        Err(K2Error::ExecutionFailed),
        Ok(()),
        Err(K2Error::Unknown),
    ];
    for outcome in outcomes.iter() {
        let job = match exp.next_step() {
            Step::Run { job_id, bench_idx } => {
                assert_eq!(bench_idx, job_id % 2);
                job_id
            }
            Step::Finished => panic!("the schedule ended early"),
        };
        let p = exp.finish_job(outcome).unwrap();
        assert!(p.create_job_table);
        assert!(!p.hard_reboot);
        assert_eq!(p.job_update, Some((job, status_of(outcome))));
        assert_eq!(p.patches.len(), 2);
    }
    assert_eq!(exp.manifest.manifest_hdr.num_reboots, 5);
    assert_eq!(exp.manifest.manifest_hdr.next_idx, 4);
}

#[test]
fn run_loop_finishes() {
    let vm = GenericScriptingVm::new("lua");
    let a = Benchmark::new("a.lua", &vm);
    let mut exp = ExperimentBuilder::new("r").benchmark(&a).reboot(true).build(header("1,0"), false);
    assert_eq!(exp.next_step(), Step::Run { job_id: 1, bench_idx: 0 });
    let p = exp.finish_job(&Ok(())).unwrap();
    assert!(!p.create_job_table);
    assert!(p.hard_reboot);
    assert_eq!(p.patches[1].bytes, b"0001".to_vec());
    assert_eq!(exp.next_step(), Step::Run { job_id: 0, bench_idx: 0 });
    exp.finish_job(&Ok(())).unwrap();
    assert_eq!(exp.next_step(), Step::Finished);
}

#[test]
fn job_table_rows() {
    let vm = GenericScriptingVm::new("/bin/vm");
    let a = Benchmark::new("x", &vm);
    let b = Benchmark::new("y", &vm);
    let exp = ExperimentBuilder::new("r")
        .benchmark(&a)
        .benchmark(&b)
        .pexecs(2)
        .build(ManifestHeader::new(4), true);
    let jobs = exp.jobs();
    let keys: Vec<&str> = jobs.iter().map(|j| j.key.as_str()).collect();
    assert_eq!(keys, vec!["/bin/vm:x", "/bin/vm:y", "/bin/vm:x", "/bin/vm:y"]);
    for (i, j) in jobs.iter().enumerate() {
        assert_eq!(j.id, i);
        assert_eq!(j.status, JobStatus::Outstanding);
    }
}

#[test]
fn builder_settings() {
    let b = ExperimentBuilder::new("first")
        .results_dir("second")
        .quick(true)
        .dry_run(true)
        .mail_to(vec!["a@example.com".to_string()])
        .in_proc_iters(10)
        .temp_read_pause(5);
    assert_eq!(b.config.results_dir, "second");
    assert!(b.config.quick && b.config.dry_run && !b.config.reboot);
    assert_eq!(b.config.mail_to, vec!["a@example.com".to_string()]);
    assert_eq!(b.config.in_proc_iters, 10);
    assert_eq!(b.config.pexecs, 1);
    assert_eq!(b.config.temp_read_pause_secs, 5);
    assert_eq!(b.num_jobs(), Some(0));
    let big = ExperimentBuilder::new("r").pexecs(usize::MAX);
    let vm = GenericNativeCode::new();
    let x = Benchmark::new("x", &vm);
    let y = Benchmark::new("y", &vm);
    assert_eq!(big.benchmark(&x).benchmark(&y).num_jobs(), None);
}

#[test]
fn config_defaults() {
    let c = Config::new("dir".to_string());
    assert_eq!(c.results_dir, "dir");
    assert!(!c.quick && !c.dry_run && !c.reboot);
    assert!(c.mail_to.is_empty());
    assert_eq!(c.in_proc_iters, 40);
    assert_eq!(c.pexecs, 1);
    assert_eq!(c.temp_read_pause_secs, 60);
}

#[test]
fn benchmark_tags_and_key() {
    let vm = GenericScriptingVm::new("/usr/bin/pypy").env("A", "1").env("A", "2");
    assert_eq!(vm.results_key(), "/usr/bin/pypy");
    assert_eq!(vm.interp_path(), "/usr/bin/pypy");
    assert_eq!(vm.env_vars().get("A").map(|s| s.as_str()), Some("2"));
    assert_eq!(vm.env_vars().get("B"), None);
    let b = Benchmark::new("bench.py", &vm)
        .tag("benchmark_name", "binarytrees")
        .arg("10".to_string())
        .stack_lim(Limit::KiB(8))
        .heap_lim(Limit::GiB(2));
    assert_eq!(b.path(), "bench.py");
    assert_eq!(b.results_key(), "/usr/bin/pypy:bench.py");
    assert_eq!(b.args(), &vec!["10".to_string()]);
    assert!(b.matches_tag("benchmark_name", "binarytrees"));
    assert!(!b.matches_tag("benchmark_name", "nbody"));
    assert!(b.matches_tag(TAG_PATH, "bench.py"));
    assert_eq!(b.tags().get("benchmark_name").map(|s| s.as_str()), Some("binarytrees"));
    assert_eq!(b.stack_lim, Some(Limit::KiB(8)));
    assert_eq!(b.heap_lim, Some(Limit::GiB(2)));
    let moved = b.tag(TAG_PATH, "other.py");
    assert_eq!(moved.path(), "other.py");
    assert_eq!(moved.tags().entries().len(), 3);
}

#[test]
fn native_code_key() {
    let native = GenericNativeCode::new().env("LD_LIBRARY_PATH", "/opt/lib");
    assert_eq!(native.results_key(), "");
    assert_eq!(native.env_vars().get("LD_LIBRARY_PATH").map(|s| s.as_str()), Some("/opt/lib"));
    let b = Benchmark::new("./a.out", &native);
    assert_eq!(b.results_key(), ":./a.out");
}
