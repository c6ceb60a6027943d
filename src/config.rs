use vstd::prelude::*;

verus! {

/// The configuration that specifies how to run the benchmarks.
#[derive(Debug)]
pub struct Config {
    /// The path of the directory where to store the results and the manifest.
    pub results_dir: String,
    /// Run the benchmarks in quick mode (for development/testing purposes).
    pub quick: bool,
    /// Don't actually run the benchmarks (for development/testing purposes).
    pub dry_run: bool,
    /// Automatically reboot between pexecs.
    pub reboot: bool,
    /// The list of emails to send notifications/errors to.
    pub mail_to: Vec<String>,
    /// The number of in-process iterations.
    pub in_proc_iters: usize,
    /// The number of process executions.
    pub pexecs: usize,
    /// The number of seconds to wait before taking the initial temperature reading.
    pub temp_read_pause_secs: u64,
}

impl Config {
    pub fn new(results_dir: String) -> (r: Config)
        ensures
            r.results_dir == results_dir,
            !r.quick,
            !r.dry_run,
            !r.reboot,
            r.mail_to@ == Seq::<String>::empty(),
            r.in_proc_iters == 40,
            r.pexecs == 1,
            r.temp_read_pause_secs == 60,
    {
        Config {
            results_dir,
            quick: false,
            dry_run: false,
            reboot: false,
            mail_to: Vec::new(),
            in_proc_iters: 40,
            pexecs: 1,
            temp_read_pause_secs: 60,
        }
    }
}

} // verus!
