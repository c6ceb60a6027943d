//! The decisions of the experiment's run loop. Each process runs at most one
//! job: it asks for the next job, runs it, records the outcome, persists
//! everything and then ends itself, so that the next job starts afresh.
use vstd::prelude::*;

use crate::benchmark::Benchmark;
use crate::codec::pow10;
use crate::config::Config;
use crate::error::{K2Error, ManifestError};
use crate::manifest::{
    FieldPatch, Job, JobStatus, ManifestHeader, ManifestManager, NEXT_IDX_BYTES,
    NUM_REBOOTS_BYTES,
};

verus! {

/// The index of the benchmark that job `job_id` runs. Each benchmark runs once
/// per process execution, so the ids go round the benchmarks.
pub fn benchmark_index(job_id: usize, benchmark_count: usize) -> (r: usize)
    requires
        benchmark_count > 0,
    ensures
        r == job_id % benchmark_count,
{
    job_id % benchmark_count
}

/// The status that an outcome of a job leads to: success is `Done`, a request
/// to rerun leaves the job `Outstanding`, and any other failure is `Error`.
pub open spec fn status_spec(outcome: Result<(), K2Error>) -> JobStatus {
    match outcome {
        Ok(_) => JobStatus::Done,
        Err(K2Error::RerunError) => JobStatus::Outstanding,
        Err(_) => JobStatus::Error,
    }
}

pub fn status_of(outcome: &Result<(), K2Error>) -> (r: JobStatus)
    ensures
        r == status_spec(*outcome),
{
    match outcome {
        Ok(_) => JobStatus::Done,
        Err(K2Error::RerunError) => JobStatus::Outstanding,
        Err(_) => JobStatus::Error,
    }
}

/// What the run loop does next.
#[derive(Debug, Clone, Copy, PartialEq, Eq, Structural)]
pub enum Step {
    /// Every job has run: the experiment is over.
    Finished,
    /// Run job `job_id`, which is benchmark `bench_idx`.
    Run { job_id: usize, bench_idx: usize },
}

/// What must happen once a job has run, in this order: create the job table
/// if this is the experiment's first iteration, overwrite the header's fields
/// in place, record the job's status, then reboot or replace the process.
#[derive(Debug)]
pub struct Persist {
    pub create_job_table: bool,
    pub patches: Vec<FieldPatch>,
    pub job_update: Option<(usize, JobStatus)>,
    pub hard_reboot: bool,
}

/// Whether the iteration in which the job handed out by `m` ended with
/// `status` can be recorded: its counters still fit their fields.
pub open spec fn iteration_fits(m: ManifestManager, status: JobStatus) -> bool {
    &&& status.is_terminal() ==> m.manifest_hdr.next_idx < m.manifest_hdr.ordering@.len()
        && m.manifest_hdr.next_idx + 1 < pow10(NEXT_IDX_BYTES as nat)
    &&& m.manifest_hdr.num_reboots + 1 < pow10(NUM_REBOOTS_BYTES as nat)
}

/// The manager once an iteration ended with `status`: the outcome recorded and
/// one more reboot counted.
pub open spec fn after_iteration(m: ManifestManager, status: JobStatus) -> ManifestManager {
    let n = m.after_outcome(status);
    ManifestManager { manifest_hdr: n.manifest_hdr.rebooted(), ..n }
}

/// The experiment runner.
pub struct Experiment<'a> {
    /// The configuration variables.
    pub config: Config,
    /// The benchmarks to run.
    pub benchmarks: Vec<&'a Benchmark>,
    /// The manifest used to schedule benchmark execution.
    pub manifest: ManifestManager,
    /// Whether this is the first run of the experiment.
    pub first_run: bool,
}

impl<'a> Experiment<'a> {
    /// What to do next: run the job that the manifest hands out, or stop.
    pub fn next_step(&self) -> (r: Step)
        requires
            self.manifest.wf(),
            self.benchmarks@.len() > 0,
        ensures
            r == match self.manifest.next_job_spec() {
                None => Step::Finished,
                Some(j) => Step::Run {
                    job_id: j,
                    bench_idx: (j as int % self.benchmarks@.len() as int) as usize,
                },
            },
    {
        match self.manifest.next_job() {
            None => Step::Finished,
            Some(job_id) => Step::Run {
                job_id,
                bench_idx: benchmark_index(job_id, self.benchmarks.len()),
            },
        }
    }

    /// Record the outcome of the job that ran, count the reboot that is about
    /// to happen, and say what must be persisted.
    pub fn finish_job(&mut self, outcome: &Result<(), K2Error>) -> (r: Result<Persist, ManifestError>)
        requires
            old(self).manifest.wf(),
        ensures
            final(self).manifest.wf(),
            final(self).config == old(self).config,
            final(self).first_run == old(self).first_run,
            r is Ok <==> iteration_fits(old(self).manifest, status_spec(*outcome)),
            r is Ok ==> final(self).manifest == after_iteration(old(self).manifest, status_spec(*outcome)),
            r matches Ok(p) ==> {
                &&& p.create_job_table == old(self).first_run
                &&& p.hard_reboot == old(self).config.reboot
                &&& p.patches@.len() == 2
                &&& p.patches@[0].offset == final(self).manifest.manifest_hdr.num_reboots_offset
                &&& p.patches@[0].bytes@ == crate::codec::padded(
                    final(self).manifest.manifest_hdr.num_reboots as nat,
                    NUM_REBOOTS_BYTES as nat,
                )
                &&& p.patches@[1].offset == final(self).manifest.manifest_hdr.next_idx_offset
                &&& p.patches@[1].bytes@ == crate::codec::padded(
                    final(self).manifest.manifest_hdr.next_idx as nat,
                    NEXT_IDX_BYTES as nat,
                )
                &&& p.job_update == match old(self).manifest.next_job_spec() {
                    Some(j) => Some((j, status_spec(*outcome))),
                    None => None::<(usize, JobStatus)>,
                }
            },
    {
        let status = status_of(outcome);
        match self.manifest.update_status(status) {
            Err(e) => {
                return Err(e);
            },
            Ok(_) => {},
        }
        match self.manifest.update_num_reboots() {
            Err(e) => {
                return Err(e);
            },
            Ok(_) => {},
        }
        let (patches, job_update) = self.manifest.sync();
        Ok(
            Persist {
                create_job_table: self.first_run,
                patches,
                job_update,
                hard_reboot: self.config.reboot,
            },
        )
    }

    /// The rows of the job table, one per job: job `id` runs benchmark
    /// `id % benchmarks.len()`, and no job has run yet.
    pub fn jobs(&self) -> (r: Vec<Job>)
        requires
            self.benchmarks@.len() > 0,
            self.config.pexecs * self.benchmarks@.len() <= usize::MAX,
            forall|i: int| 0 <= i < self.benchmarks@.len() ==> (#[trigger] self.benchmarks@[i]).wf(),
        ensures
            r@.len() == self.config.pexecs * self.benchmarks@.len(),
            forall|i: int|
                0 <= i < r@.len() ==> (#[trigger] r@[i]).id == i && r@[i].key@
                    == self.benchmarks@[i % self.benchmarks@.len() as int].results_key_spec()
                    && r@[i].status == JobStatus::Outstanding,
    {
        let count = self.benchmarks.len();
        let n = self.config.pexecs * count;
        let mut r: Vec<Job> = Vec::new();
        let mut id: usize = 0;
        while id < n
            invariant
                count == self.benchmarks@.len(),
                count > 0,
                n == self.config.pexecs * count,
                id <= n,
                r@.len() == id,
                forall|i: int| 0 <= i < self.benchmarks@.len() ==> (#[trigger] self.benchmarks@[i]).wf(),
                forall|i: int|
                    0 <= i < id ==> (#[trigger] r@[i]).id == i && r@[i].key@
                        == self.benchmarks@[i % count as int].results_key_spec()
                        && r@[i].status == JobStatus::Outstanding,
            decreases n - id,
        {
            let bench = self.benchmarks[benchmark_index(id, count)];
            r.push(Job::new(id, bench));
            id = id + 1;
        }
        r
    }
}


/// A builder used to construct an `Experiment`: it fills in a `Config` and
/// collects the benchmarks to run.
pub struct ExperimentBuilder<'a> {
    pub config: Config,
    pub benchmarks: Vec<&'a Benchmark>,
}

impl<'a> ExperimentBuilder<'a> {
    /// Set up a new experiment builder, whose results and manifest are stored
    /// in `results_dir`.
    pub fn new(results_dir: &str) -> (r: ExperimentBuilder<'a>)
        ensures
            r.config.results_dir@ == results_dir@,
            !r.config.quick,
            !r.config.dry_run,
            !r.config.reboot,
            r.config.mail_to@ == Seq::<String>::empty(),
            r.config.in_proc_iters == 40,
            r.config.pexecs == 1,
            r.config.temp_read_pause_secs == 60,
            r.benchmarks@ == Seq::<&'a Benchmark>::empty(),
    {
        ExperimentBuilder { config: Config::new(results_dir.to_owned()), benchmarks: Vec::new() }
    }

    pub fn results_dir(self, results_dir: &str) -> (r: ExperimentBuilder<'a>)
        ensures
            r.config.results_dir@ == results_dir@,
            r.config == (Config { results_dir: r.config.results_dir, ..self.config }),
            r.benchmarks == self.benchmarks,
    {
        let mut b = self;
        b.config.results_dir = results_dir.to_owned();
        b
    }

    pub fn quick(self, quick: bool) -> (r: ExperimentBuilder<'a>)
        ensures
            r.config == (Config { quick, ..self.config }),
            r.benchmarks == self.benchmarks,
    {
        let mut b = self;
        b.config.quick = quick;
        b
    }

    pub fn dry_run(self, dry_run: bool) -> (r: ExperimentBuilder<'a>)
        ensures
            r.config == (Config { dry_run, ..self.config }),
            r.benchmarks == self.benchmarks,
    {
        let mut b = self;
        b.config.dry_run = dry_run;
        b
    }

    pub fn reboot(self, reboot: bool) -> (r: ExperimentBuilder<'a>)
        ensures
            r.config == (Config { reboot, ..self.config }),
            r.benchmarks == self.benchmarks,
    {
        let mut b = self;
        b.config.reboot = reboot;
        b
    }

    pub fn mail_to(self, mail_to: Vec<String>) -> (r: ExperimentBuilder<'a>)
        ensures
            r.config == (Config { mail_to, ..self.config }),
            r.benchmarks == self.benchmarks,
    {
        let mut b = self;
        b.config.mail_to = mail_to;
        b
    }

    pub fn in_proc_iters(self, in_proc_iters: usize) -> (r: ExperimentBuilder<'a>)
        ensures
            r.config == (Config { in_proc_iters, ..self.config }),
            r.benchmarks == self.benchmarks,
    {
        let mut b = self;
        b.config.in_proc_iters = in_proc_iters;
        b
    }

    pub fn pexecs(self, pexecs: usize) -> (r: ExperimentBuilder<'a>)
        ensures
            r.config == (Config { pexecs, ..self.config }),
            r.benchmarks == self.benchmarks,
    {
        let mut b = self;
        b.config.pexecs = pexecs;
        b
    }

    /// Wait `secs` seconds before taking the initial temperature reading.
    pub fn temp_read_pause(self, secs: u64) -> (r: ExperimentBuilder<'a>)
        ensures
            r.config == (Config { temp_read_pause_secs: secs, ..self.config }),
            r.benchmarks == self.benchmarks,
    {
        let mut b = self;
        b.config.temp_read_pause_secs = secs;
        b
    }

    /// Add `bench` to the list of benchmarks to run.
    pub fn benchmark(self, bench: &'a Benchmark) -> (r: ExperimentBuilder<'a>)
        ensures
            r.config == self.config,
            r.benchmarks@ == self.benchmarks@.push(bench),
    {
        let mut b = self;
        b.benchmarks.push(bench);
        b
    }

    /// The number of jobs: each benchmark once per process execution. `None`
    /// when that number does not fit in a `usize`.
    pub fn num_jobs(&self) -> (r: Option<usize>)
        ensures
            r matches Some(n) ==> n == self.config.pexecs * self.benchmarks@.len(),
            r is None <==> self.config.pexecs * self.benchmarks@.len() > usize::MAX,
    {
        self.config.pexecs.checked_mul(self.benchmarks.len())
    }

    /// Consume the builder and create an `Experiment` that schedules its jobs
    /// with `manifest_hdr`. `first_run` says whether the results directory was
    /// created just now.
    pub fn build(self, manifest_hdr: ManifestHeader, first_run: bool) -> (r: Experiment<'a>)
        requires
            manifest_hdr.wf(),
        ensures
            r.config == self.config,
            r.benchmarks == self.benchmarks,
            r.manifest.wf(),
            r.manifest.manifest_hdr == manifest_hdr,
            r.manifest.cur_job is None,
            r.first_run == first_run,
    {
        Experiment {
            config: self.config,
            benchmarks: self.benchmarks,
            manifest: ManifestManager::new(manifest_hdr),
            first_run,
        }
    }
}

} // verus!
