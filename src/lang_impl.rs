use vstd::prelude::*;

use crate::benchmark::TagStore;

verus! {

/// A language implementation that benchmarks run on.
///
/// How a benchmark is launched on it is up to the program around the library;
/// the library only needs the key that names it in the results.
pub trait LangImpl {
    /// The key that names this implementation in the results.
    spec fn key_spec(&self) -> Seq<char>;

    fn results_key(&self) -> (r: String)
        ensures
            r@ == self.key_spec(),
    ;
}

/// An interpreter, run on the path of each benchmark.
pub struct GenericScriptingVm {
    /// The path of the interpreter.
    interp_path: String,
    /// The environment to use when running the VM.
    env: TagStore,
}

impl GenericScriptingVm {
    pub closed spec fn interp_path_spec(&self) -> Seq<char> {
        self.interp_path@
    }

    pub closed spec fn env_spec(&self) -> Map<Seq<char>, Seq<char>> {
        self.env.view()
    }

    pub fn new(path: &str) -> (r: GenericScriptingVm)
        ensures
            r.interp_path_spec() == path@,
            r.env_spec() == Map::<Seq<char>, Seq<char>>::empty(),
    {
        GenericScriptingVm { interp_path: path.to_owned(), env: TagStore::new() }
    }

    /// Set the environment variable `k` to `v` when running the VM.
    pub fn env(self, k: &str, v: &str) -> (r: GenericScriptingVm)
        ensures
            r.interp_path_spec() == self.interp_path_spec(),
            r.env_spec() == self.env_spec().insert(k@, v@),
    {
        let mut s = self;
        s.env.insert(k, v);
        s
    }

    /// The path of the interpreter.
    pub fn interp_path(&self) -> (r: &String)
        ensures
            r@ == self.interp_path_spec(),
    {
        &self.interp_path
    }

    /// The environment, as `(key, value)` pairs: a later pair overrides an
    /// earlier one with the same key.
    pub fn env_vars(&self) -> (r: &TagStore)
        ensures
            r.view() == self.env_spec(),
    {
        &self.env
    }
}

impl LangImpl for GenericScriptingVm {
    open spec fn key_spec(&self) -> Seq<char> {
        self.interp_path_spec()
    }

    fn results_key(&self) -> (r: String) {
        self.interp_path.clone()
    }
}

/// A benchmark compiled to native code, run directly.
pub struct GenericNativeCode {
    /// The environment to use.
    env: TagStore,
}

impl GenericNativeCode {
    pub closed spec fn env_spec(&self) -> Map<Seq<char>, Seq<char>> {
        self.env.view()
    }

    pub fn new() -> (r: GenericNativeCode)
        ensures
            r.env_spec() == Map::<Seq<char>, Seq<char>>::empty(),
    {
        GenericNativeCode { env: TagStore::new() }
    }

    /// Set the environment variable `k` to `v` when running the benchmark.
    pub fn env(self, k: &str, v: &str) -> (r: GenericNativeCode)
        ensures
            r.env_spec() == self.env_spec().insert(k@, v@),
    {
        let mut s = self;
        s.env.insert(k, v);
        s
    }

    /// The environment, as `(key, value)` pairs: a later pair overrides an
    /// earlier one with the same key.
    pub fn env_vars(&self) -> (r: &TagStore)
        ensures
            r.view() == self.env_spec(),
    {
        &self.env
    }
}

impl LangImpl for GenericNativeCode {
    /// Native code needs no interpreter, so its key is empty.
    open spec fn key_spec(&self) -> Seq<char> {
        Seq::empty()
    }

    fn results_key(&self) -> (r: String) {
        String::new()
    }
}

} // verus!
