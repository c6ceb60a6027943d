use vstd::prelude::*;
use vstd::string::StringExecFns;

use crate::lang_impl::LangImpl;
use crate::limit::Limit;

verus! {

/// The key of the path tag.
pub const TAG_PATH: &'static str = "path";

/// The map that a list of `(key, value)` pairs stands for: a later pair
/// overrides an earlier one with the same key.
pub open spec fn tag_map(s: Seq<(String, String)>) -> Map<Seq<char>, Seq<char>>
    decreases s.len(),
{
    if s.len() == 0 {
        Map::empty()
    } else {
        tag_map(s.drop_last()).insert(s.last().0@, s.last().1@)
    }
}

/// A collection of tags: key-value pairs that record both values set by the
/// user and the results of a benchmark.
pub struct TagStore {
    entries: Vec<(String, String)>,
}

impl View for TagStore {
    type V = Map<Seq<char>, Seq<char>>;

    closed spec fn view(&self) -> Map<Seq<char>, Seq<char>> {
        tag_map(self.entries@)
    }
}

impl TagStore {
    pub fn new() -> (r: TagStore)
        ensures
            r@ == Map::<Seq<char>, Seq<char>>::empty(),
    {
        TagStore { entries: Vec::new() }
    }

    /// Set `k` to `v`, replacing any earlier value of `k`.
    pub fn insert(&mut self, k: &str, v: &str)
        ensures
            final(self)@ == old(self)@.insert(k@, v@),
    {
        let ghost before = self.entries@;
        self.entries.push((k.to_owned(), v.to_owned()));
        assert(self.entries@.drop_last() =~= before);
    }

    /// The value of `k`, if it has one.
    pub fn get(&self, k: &str) -> (r: Option<&String>)
        ensures
            r is Some <==> self@.contains_key(k@),
            r matches Some(v) ==> v@ == self@[k@],
    {
        let key = k.to_owned();
        let s = &self.entries;
        let mut i: usize = s.len();
        assert(s@.subrange(0, i as int) =~= s@);
        while i > 0
            invariant
                i <= s@.len(),
                key@ == k@,
                self@.contains_key(k@) == tag_map(s@.subrange(0, i as int)).contains_key(k@),
                self@.contains_key(k@) ==> self@[k@] == tag_map(s@.subrange(0, i as int))[k@],
            decreases i,
        {
            let ghost pre = s@.subrange(0, i as int);
            assert(pre.drop_last() =~= s@.subrange(0, i - 1));
            if s[i - 1].0 == key {
                return Some(&s[i - 1].1);
            }
            i = i - 1;
        }
        None
    }

    /// The pairs set so far, in order: a later pair overrides an earlier one
    /// with the same key.
    pub fn entries(&self) -> (r: &Vec<(String, String)>)
        ensures
            tag_map(r@) == self@,
    {
        &self.entries
    }
}

/// A benchmark: a set of tags, the arguments to pass to it, and the language
/// implementation it runs on, known here by its results key.
pub struct Benchmark {
    tags: TagStore,
    /// The command-line arguments passed to this benchmark.
    args: Vec<String>,
    /// The results key of the language implementation.
    lang_key: String,
    /// The stack size limit. `None` by default.
    pub stack_lim: Option<Limit>,
    /// The heap size limit. `None` by default.
    pub heap_lim: Option<Limit>,
}

impl Benchmark {
    /// The path tag is always set: a benchmark cannot run without it.
    pub closed spec fn wf(&self) -> bool {
        self.tags@.contains_key(TAG_PATH@)
    }

    pub closed spec fn tags_spec(&self) -> Map<Seq<char>, Seq<char>> {
        self.tags@
    }

    pub closed spec fn args_spec(&self) -> Seq<String> {
        self.args@
    }

    pub closed spec fn lang_key_spec(&self) -> Seq<char> {
        self.lang_key@
    }

    pub closed spec fn stack_lim_spec(&self) -> Option<Limit> {
        self.stack_lim
    }

    pub closed spec fn heap_lim_spec(&self) -> Option<Limit> {
        self.heap_lim
    }

    pub open spec fn path_spec(&self) -> Seq<char> {
        self.tags_spec()[TAG_PATH@]
    }

    /// The key of this benchmark's results: `<implementation key>:<path>`.
    pub open spec fn results_key_spec(&self) -> Seq<char> {
        self.lang_key_spec() + seq![':'] + self.path_spec()
    }

    /// Create a new benchmark with the specified path.
    pub fn new<L: LangImpl>(path: &str, lang_impl: &L) -> (r: Benchmark)
        ensures
            r.wf(),
            r.tags_spec() == Map::<Seq<char>, Seq<char>>::empty().insert(TAG_PATH@, path@),
            r.path_spec() == path@,
            r.args_spec() == Seq::<String>::empty(),
            r.lang_key_spec() == lang_impl.key_spec(),
            r.stack_lim_spec() is None,
            r.heap_lim_spec() is None,
    {
        let b = Benchmark {
            tags: TagStore::new(),
            args: Vec::new(),
            lang_key: lang_impl.results_key(),
            stack_lim: None,
            heap_lim: None,
        };
        b.tag(TAG_PATH, path)
    }

    pub fn results_key(&self) -> (r: String)
        requires
            self.wf(),
        ensures
            r@ == self.results_key_spec(),
    {
        proof {
            reveal_strlit(":");
        }
        let key = self.lang_key.clone().concat(":");
        key.concat(self.path())
    }

    /// Get all the arguments passed to this benchmark.
    pub fn args(&self) -> (r: &Vec<String>)
        ensures
            r@ == self.args_spec(),
    {
        &self.args
    }

    /// Add an argument to pass to the benchmark.
    pub fn arg(self, arg: String) -> (r: Benchmark)
        ensures
            r.args_spec() == self.args_spec().push(arg),
            r.tags_spec() == self.tags_spec(),
            r.lang_key_spec() == self.lang_key_spec(),
            r.wf() == self.wf(),
            r.stack_lim_spec() == self.stack_lim_spec(),
            r.heap_lim_spec() == self.heap_lim_spec(),
    {
        let mut b = self;
        b.args.push(arg);
        b
    }

    /// The path of the benchmark.
    pub fn path(&self) -> (r: &str)
        requires
            self.wf(),
        ensures
            r@ == self.path_spec(),
    {
        match self.tags.get(TAG_PATH) {
            Some(p) => p.as_str(),
            None => "",
        }
    }

    /// Retrieve the tags recorded for this benchmark.
    pub fn tags(&self) -> (r: &TagStore)
        ensures
            r@ == self.tags_spec(),
    {
        &self.tags
    }

    /// Add tag `t` with value `val`.
    pub fn tag(self, t: &str, val: &str) -> (r: Benchmark)
        ensures
            r.tags_spec() == self.tags_spec().insert(t@, val@),
            r.args_spec() == self.args_spec(),
            r.lang_key_spec() == self.lang_key_spec(),
            r.wf() == (self.wf() || t@ == TAG_PATH@),
            r.stack_lim_spec() == self.stack_lim_spec(),
            r.heap_lim_spec() == self.heap_lim_spec(),
    {
        let mut b = self;
        b.tags.insert(t, val);
        b
    }

    /// Get the value of the tag with key `t`.
    fn tag_value(&self, t: &str) -> (r: &String)
        requires
            self.tags_spec().contains_key(t@),
        ensures
            r@ == self.tags_spec()[t@],
    {
        match self.tags.get(t) {
            Some(v) => v,
            None => &self.lang_key,
        }
    }

    /// Check if the value of the tag identified by `t` matches `val`.
    pub fn matches_tag(&self, t: &str, val: &str) -> (r: bool)
        requires
            self.tags_spec().contains_key(t@),
        ensures
            r == (self.tags_spec()[t@] == val@),
    {
        let v = val.to_owned();
        *self.tag_value(t) == v
    }

    pub fn stack_lim(self, stack_lim: Limit) -> (r: Benchmark)
        ensures
            r.stack_lim_spec() == Some(stack_lim),
            r.heap_lim_spec() == self.heap_lim_spec(),
            r.tags_spec() == self.tags_spec(),
            r.args_spec() == self.args_spec(),
            r.lang_key_spec() == self.lang_key_spec(),
            r.wf() == self.wf(),
    {
        let mut b = self;
        b.stack_lim = Some(stack_lim);
        b
    }

    pub fn heap_lim(self, heap_lim: Limit) -> (r: Benchmark)
        ensures
            r.heap_lim_spec() == Some(heap_lim),
            r.stack_lim_spec() == self.stack_lim_spec(),
            r.tags_spec() == self.tags_spec(),
            r.args_spec() == self.args_spec(),
            r.lang_key_spec() == self.lang_key_spec(),
            r.wf() == self.wf(),
    {
        let mut b = self;
        b.heap_lim = Some(heap_lim);
        b
    }
}

} // verus!
