//! The manifest: the on-disk record of how far an experiment has progressed,
//! and the state machine that advances it one job at a time.
use vstd::prelude::*;

use rand::seq::SliceRandom;

use crate::codec::{
    all_digits, decimal, lemma_decimal_len_fits, lemma_padded_is_decimal, zeros, format_fixed, is_list_text, lemma_list_text_injective, lemma_padded,
    lemma_padded_of_value, list_text, padded, parse_list, parse_number, pow10, push_list,
    value_of,
};
use crate::benchmark::Benchmark;
use crate::error::ManifestError;
use crate::util::num_digits;

verus! {

/// The `num_reboots` field has a fixed width of 8 bytes.
pub const NUM_REBOOTS_BYTES: usize = 8;

/// The `next_idx` field has a fixed width of 4 bytes.
pub const NEXT_IDX_BYTES: usize = 4;

/// Where the value of `num_reboots` starts: after `num_reboots=`.
pub const NUM_REBOOTS_OFFSET: u64 = 12;

/// Where the value of `next_idx` starts: after the first line and `next_idx=`.
pub const NEXT_IDX_OFFSET: u64 = 30;

/// Where the value of `ordering` starts: after the second line and `ordering=`.
pub const ORDERING_START: usize = 44;

/// The line feed that ends each of the first two lines.
pub const NEWLINE: u8 = 10;

/// `num_reboots=`
pub open spec fn num_reboots_key() -> Seq<u8> {
    seq![110u8, 117, 109, 95, 114, 101, 98, 111, 111, 116, 115, 61]
}

/// `next_idx=`
pub open spec fn next_idx_key() -> Seq<u8> {
    seq![110u8, 101, 120, 116, 95, 105, 100, 120, 61]
}

/// `ordering=`
pub open spec fn ordering_key() -> Seq<u8> {
    seq![111u8, 114, 100, 101, 114, 105, 110, 103, 61]
}

/// Whether the counters fit the widths of their fields.
pub open spec fn counters_fit(num_reboots: nat, next_idx: nat) -> bool {
    num_reboots < pow10(NUM_REBOOTS_BYTES as nat) && next_idx < pow10(NEXT_IDX_BYTES as nat)
}

/// The text of a header file: three `key=value` lines, the first two of fixed
/// width, the last holding the ordering, with no newline after it.
pub open spec fn header_text(num_reboots: nat, next_idx: nat, ordering: Seq<usize>) -> Seq<u8> {
    num_reboots_key() + padded(num_reboots, NUM_REBOOTS_BYTES as nat) + seq![NEWLINE]
        + next_idx_key() + padded(next_idx, NEXT_IDX_BYTES as nat) + seq![NEWLINE]
        + ordering_key() + list_text(ordering)
}

/// Every id of `0..s.len()` appears in `s` exactly once.
pub open spec fn is_permutation(s: Seq<usize>) -> bool {
    &&& forall|i: int| 0 <= i < s.len() ==> #[trigger] s[i] < s.len()
    &&& s.no_duplicates()
}

/// The ids `0..n` in increasing order.
pub open spec fn ids(n: nat) -> Seq<usize> {
    Seq::new(n, |i: int| i as usize)
}

/// Whether `b` is laid out as a header, with counters that fit their fields.
pub open spec fn is_header_text(b: Seq<u8>) -> bool {
    exists|f: (nat, nat, Seq<usize>)|
        counters_fit(f.0, f.1) && b == #[trigger] header_text(f.0, f.1, f.2)
}

/// Whether `b` is the text of a header that keeps its invariant: the cursor
/// lies within the ordering, and the ordering is a permutation.
pub open spec fn is_valid_header_text(b: Seq<u8>) -> bool {
    exists|f: (nat, nat, Seq<usize>)|
        counters_fit(f.0, f.1) && f.1 <= f.2.len() && is_permutation(f.2) && b
            == #[trigger] header_text(f.0, f.1, f.2)
}

/// The bytes `b[start..start + len]`.
pub open spec fn slice_at(b: Seq<u8>, start: int, len: int) -> Seq<u8> {
    b.subrange(start, start + len)
}

/// What the text of a header holds, piece by piece.
pub open spec fn header_parts(b: Seq<u8>, num_reboots: nat, next_idx: nat, ordering: Seq<usize>) -> bool {
    &&& b.len() >= ORDERING_START
    &&& slice_at(b, 0, 12) == num_reboots_key()
    &&& slice_at(b, 12, 8) == padded(num_reboots, NUM_REBOOTS_BYTES as nat)
    &&& b[20] == NEWLINE
    &&& slice_at(b, 21, 9) == next_idx_key()
    &&& slice_at(b, 30, 4) == padded(next_idx, NEXT_IDX_BYTES as nat)
    &&& b[34] == NEWLINE
    &&& slice_at(b, 35, 9) == ordering_key()
    &&& b.subrange(ORDERING_START as int, b.len() as int) == list_text(ordering)
}

/// A header's text is made of its parts, at fixed places.
pub proof fn lemma_header_parts(b: Seq<u8>, num_reboots: nat, next_idx: nat, ordering: Seq<usize>)
    requires
        counters_fit(num_reboots, next_idx),
    ensures
        b == header_text(num_reboots, next_idx, ordering) <==> header_parts(
            b,
            num_reboots,
            next_idx,
            ordering,
        ),
{
    lemma_padded(num_reboots, NUM_REBOOTS_BYTES as nat);
    lemma_padded(next_idx, NEXT_IDX_BYTES as nat);
    let t = header_text(num_reboots, next_idx, ordering);
    if b == t {
        assert(slice_at(b, 0, 12) =~= num_reboots_key());
        assert(slice_at(b, 12, 8) =~= padded(num_reboots, NUM_REBOOTS_BYTES as nat));
        assert(slice_at(b, 21, 9) =~= next_idx_key());
        assert(slice_at(b, 30, 4) =~= padded(next_idx, NEXT_IDX_BYTES as nat));
        assert(slice_at(b, 35, 9) =~= ordering_key());
        assert(b.subrange(ORDERING_START as int, b.len() as int) =~= list_text(ordering));
    }
    if header_parts(b, num_reboots, next_idx, ordering) {
        assert(b =~= slice_at(b, 0, 12) + slice_at(b, 12, 8) + seq![b[20]] + slice_at(b, 21, 9)
            + slice_at(b, 30, 4) + seq![b[34]] + slice_at(b, 35, 9) + b.subrange(
            ORDERING_START as int,
            b.len() as int,
        ));
    }
}

/// Two headers with the same text hold the same counters and ordering.
pub proof fn lemma_header_text_injective(
    num_reboots: nat,
    next_idx: nat,
    ordering: Seq<usize>,
    num_reboots2: nat,
    next_idx2: nat,
    ordering2: Seq<usize>,
)
    requires
        counters_fit(num_reboots, next_idx),
        counters_fit(num_reboots2, next_idx2),
        header_text(num_reboots, next_idx, ordering) == header_text(
            num_reboots2,
            next_idx2,
            ordering2,
        ),
    ensures
        num_reboots == num_reboots2,
        next_idx == next_idx2,
        ordering == ordering2,
{
    let b = header_text(num_reboots, next_idx, ordering);
    lemma_header_parts(b, num_reboots, next_idx, ordering);
    lemma_header_parts(b, num_reboots2, next_idx2, ordering2);
    lemma_padded(num_reboots, NUM_REBOOTS_BYTES as nat);
    lemma_padded(num_reboots2, NUM_REBOOTS_BYTES as nat);
    lemma_padded(next_idx, NEXT_IDX_BYTES as nat);
    lemma_padded(next_idx2, NEXT_IDX_BYTES as nat);
    lemma_list_text_injective(ordering, ordering2);
}

/// A sequence with the same ids as `0..n`, in any order, is a permutation.
pub proof fn lemma_shuffled_ids(s: Seq<usize>, n: nat)
    requires
        n <= usize::MAX,
        s.to_multiset() == ids(n).to_multiset(),
    ensures
        s.len() == n,
        is_permutation(s),
{
    let r = ids(n);
    s.to_multiset_ensures();
    r.to_multiset_ensures();
    assert forall|i: int| 0 <= i < s.len() implies #[trigger] s[i] < s.len() by {
        assert(s.contains(s[i]));
        assert(s.to_multiset().count(s[i]) > 0);
        assert(r.to_multiset().count(s[i]) > 0);
        assert(r.contains(s[i]));
        let k = choose|k: int| 0 <= k < r.len() && r[k] == s[i];
        assert(r[k] == k as usize);
    }
    assert forall|i: int, j: int|
        0 <= i < r.len() && 0 <= j < r.len() && i != j implies r[i] != r[j] by {
        assert(r[i] == i as usize && r[j] == j as usize);
    }
    assert(r.no_duplicates());
    r.lemma_multiset_has_no_duplicates();
    s.lemma_multiset_has_no_duplicates_conv();
}

/// The status of a job.
#[derive(Debug, Clone, Copy, PartialEq, Eq, Structural)]
pub enum JobStatus {
    Outstanding,
    Done,
    Error,
}

impl JobStatus {
    /// `Done` and `Error` close a job's slot in the schedule; `Outstanding` does not.
    pub open spec fn is_terminal(self) -> bool {
        self != JobStatus::Outstanding
    }

    /// The number that stands for this status in the job table.
    pub fn code(&self) -> (r: i64)
        ensures
            r == match *self {
                JobStatus::Outstanding => 0i64,
                JobStatus::Done => 1i64,
                JobStatus::Error => 2i64,
            },
    {
        match *self {
            JobStatus::Outstanding => 0,
            JobStatus::Done => 1,
            JobStatus::Error => 2,
        }
    }
}

/// One scheduled run of one benchmark.
#[derive(Debug)]
pub struct Job {
    /// The unique identifier of the job: the primary key of the job table.
    pub id: usize,
    /// Identifies the benchmark and language implementation of this job.
    pub key: String,
    /// The status of this job.
    pub status: JobStatus,
}

impl Job {
    /// A job that has not run yet.
    pub fn new(id: usize, bench: &Benchmark) -> (r: Job)
        requires
            bench.wf(),
        ensures
            r.id == id,
            r.key@ == bench.results_key_spec(),
            r.status == JobStatus::Outstanding,
    {
        Job { id, key: bench.results_key(), status: JobStatus::Outstanding }
    }
}

/// Relies on rand 0.8's `SliceRandom::shuffle`, which only swaps elements of
/// the slice: the result holds the same ids, in an order drawn at random.
#[verifier::external_body]
fn shuffle_ids(v: &mut Vec<usize>)
    ensures
        final(v)@.to_multiset() == old(v)@.to_multiset(),
{
    v.shuffle(&mut rand::thread_rng());
}

/// One overwrite of a fixed-width field: `bytes` go to the file at `offset`.
#[derive(Debug)]
pub struct FieldPatch {
    pub offset: u64,
    pub bytes: Vec<u8>,
}

/// `b` with `bytes` written over it from `offset` on.
pub open spec fn patched(b: Seq<u8>, offset: int, bytes: Seq<u8>) -> Seq<u8> {
    b.subrange(0, offset) + bytes + b.subrange(offset + bytes.len(), b.len() as int)
}

/// Write `patch` over `buf` in place: no other byte changes, and the length stays.
pub fn apply_patch(buf: &mut Vec<u8>, patch: &FieldPatch)
    requires
        patch.offset + patch.bytes@.len() <= old(buf)@.len(),
    ensures
        final(buf)@ == patched(old(buf)@, patch.offset as int, patch.bytes@),
{
    let n = buf.len();
    assert(patch.offset <= n);
    let start = patch.offset as usize;
    let mut k: usize = 0;
    while k < patch.bytes.len()
        invariant
            start == patch.offset,
            start + patch.bytes@.len() <= buf@.len(),
            buf@.len() == old(buf)@.len(),
            n == buf@.len(),
            k <= patch.bytes@.len(),
            forall|x: int| 0 <= x < start ==> buf@[x] == old(buf)@[x],
            forall|x: int| start + patch.bytes@.len() <= x < buf@.len() ==> buf@[x] == old(buf)@[x],
            forall|x: int| 0 <= x < k ==> buf@[start + x] == patch.bytes@[x],
            forall|x: int| start + k <= x < start + patch.bytes@.len() ==> buf@[x] == old(buf)@[x],
        decreases patch.bytes@.len() - k,
    {
        buf.set(start + k, patch.bytes[k]);
        k = k + 1;
    }
    assert(buf@ =~= patched(old(buf)@, patch.offset as int, patch.bytes@));
}

/// The manifest header: the single source of truth for an experiment's progress.
#[derive(Debug)]
pub struct ManifestHeader {
    /// The value of the `num_reboots` field.
    pub num_reboots: usize,
    /// The offset of the `num_reboots` field.
    pub num_reboots_offset: u64,
    /// The value of the `next_idx` field: `ordering[next_idx]` is the next job.
    pub next_idx: usize,
    /// The offset of the `next_idx` field.
    pub next_idx_offset: u64,
    /// The order in which to run the jobs, a permutation of their ids.
    pub ordering: Vec<usize>,
}

impl ManifestHeader {
    pub open spec fn wf(&self) -> bool {
        &&& counters_fit(self.num_reboots as nat, self.next_idx as nat)
        &&& self.next_idx <= self.ordering@.len()
        &&& is_permutation(self.ordering@)
        &&& self.num_reboots_offset == NUM_REBOOTS_OFFSET
        &&& self.next_idx_offset == NEXT_IDX_OFFSET
    }

    /// The text of the file that holds this header.
    pub open spec fn text(&self) -> Seq<u8> {
        header_text(self.num_reboots as nat, self.next_idx as nat, self.ordering@)
    }

    /// The next job to run, or `None` once the schedule is exhausted.
    pub open spec fn next_job_spec(&self) -> Option<usize> {
        if self.next_idx < self.ordering@.len() {
            Some(self.ordering@[self.next_idx as int])
        } else {
            None
        }
    }

    /// Create a fresh header for `num_jobs` jobs: no reboots yet, the cursor at
    /// the start, and the jobs in an order drawn at random.
    pub fn new(num_jobs: usize) -> (r: ManifestHeader)
        ensures
            r.wf(),
            r.num_reboots == 0,
            r.next_idx == 0,
            r.ordering@.len() == num_jobs,
            r.ordering@.to_multiset() == ids(num_jobs as nat).to_multiset(),
    {
        let ordering = Self::random_ordering(num_jobs);
        proof {
            crate::codec::lemma_pow10_pos(NUM_REBOOTS_BYTES as nat);
            crate::codec::lemma_pow10_pos(NEXT_IDX_BYTES as nat);
        }
        ManifestHeader {
            num_reboots: 0,
            num_reboots_offset: NUM_REBOOTS_OFFSET,
            next_idx: 0,
            next_idx_offset: NEXT_IDX_OFFSET,
            ordering,
        }
    }

    /// A permutation of `0..num_jobs`, drawn at random.
    pub fn random_ordering(num_jobs: usize) -> (r: Vec<usize>)
        ensures
            r@.len() == num_jobs,
            is_permutation(r@),
            r@.to_multiset() == ids(num_jobs as nat).to_multiset(),
    {
        let mut v: Vec<usize> = Vec::new();
        let mut i: usize = 0;
        while i < num_jobs
            invariant
                i <= num_jobs,
                v@ == ids(i as nat),
            decreases num_jobs - i,
        {
            v.push(i);
            i = i + 1;
            assert(v@ =~= ids(i as nat));
        }
        shuffle_ids(&mut v);
        proof {
            lemma_shuffled_ids(v@, num_jobs as nat);
        }
        v
    }

    /// The ordering as the file holds it: ids in decimal, separated by commas.
    pub fn ordering_str(&self) -> (r: Vec<u8>)
        ensures
            r@ == list_text(self.ordering@),
    {
        let mut out: Vec<u8> = Vec::new();
        push_list(&mut out, &self.ordering);
        assert(out@ =~= list_text(self.ordering@));
        out
    }

    /// The full text of the header file, as it is written when first created.
    pub fn to_bytes(&self) -> (r: Vec<u8>)
        requires
            self.wf(),
        ensures
            r@ == self.text(),
    {
        let mut out = num_reboots_key_bytes();
        let f = format_fixed(self.num_reboots, NUM_REBOOTS_BYTES);
        append_bytes(&mut out, &f);
        out.push(NEWLINE);
        append_bytes(&mut out, &next_idx_key_bytes());
        append_bytes(&mut out, &format_fixed(self.next_idx, NEXT_IDX_BYTES));
        out.push(NEWLINE);
        append_bytes(&mut out, &ordering_key_bytes());
        push_list(&mut out, &self.ordering);
        assert(out@ =~= self.text());
        out
    }
}

/// Append `src` to `out`.
fn append_bytes(out: &mut Vec<u8>, src: &Vec<u8>)
    ensures
        final(out)@ == old(out)@ + src@,
{
    let mut k: usize = 0;
    while k < src.len()
        invariant
            k <= src@.len(),
            out@ == old(out)@ + src@.subrange(0, k as int),
        decreases src@.len() - k,
    {
        out.push(src[k]);
        k = k + 1;
        assert(out@ =~= old(out)@ + src@.subrange(0, k as int));
    }
    assert(src@.subrange(0, src@.len() as int) =~= src@);
}

fn num_reboots_key_bytes() -> (r: Vec<u8>)
    ensures
        r@ == num_reboots_key(),
{
    let r: Vec<u8> = vec![110u8, 117, 109, 95, 114, 101, 98, 111, 111, 116, 115, 61];
    assert(r@ =~= num_reboots_key());
    r
}

fn next_idx_key_bytes() -> (r: Vec<u8>)
    ensures
        r@ == next_idx_key(),
{
    let r: Vec<u8> = vec![110u8, 101, 120, 116, 95, 105, 100, 120, 61];
    assert(r@ =~= next_idx_key());
    r
}

fn ordering_key_bytes() -> (r: Vec<u8>)
    ensures
        r@ == ordering_key(),
{
    let r: Vec<u8> = vec![111u8, 114, 100, 101, 114, 105, 110, 103, 61];
    assert(r@ =~= ordering_key());
    r
}


/// Whether `b[start..start + key.len()]` is exactly `key`.
fn matches_at(b: &Vec<u8>, start: usize, key: &Vec<u8>) -> (r: bool)
    ensures
        r == (start + key@.len() <= b@.len() && slice_at(b@, start as int, key@.len() as int)
            == key@),
{
    if key.len() > b.len() || start > b.len() - key.len() {
        return false;
    }
    let n = b.len();
    let mut k: usize = 0;
    while k < key.len()
        invariant
            n == b@.len(),
            start + key@.len() <= b@.len(),
            k <= key@.len(),
            forall|x: int| 0 <= x < k ==> b@[start + x] == key@[x],
        decreases key@.len() - k,
    {
        if b[start + k] != key[k] {
            assert(slice_at(b@, start as int, key@.len() as int)[k as int] != key@[k as int]);
            return false;
        }
        k = k + 1;
    }
    assert(slice_at(b@, start as int, key@.len() as int) =~= key@);
    true
}

/// Whether `v` holds each id of `0..v.len()` exactly once.
pub fn check_permutation(v: &Vec<usize>) -> (r: bool)
    ensures
        r == is_permutation(v@),
{
    let n = v.len();
    let mut seen: Vec<bool> = Vec::new();
    while seen.len() < n
        invariant
            seen@.len() <= n,
            forall|x: int| 0 <= x < seen@.len() ==> !seen@[x],
        decreases n - seen@.len(),
    {
        seen.push(false);
    }
    let mut i: usize = 0;
    while i < n
        invariant
            n == v@.len(),
            seen@.len() == n,
            i <= n,
            forall|k: int| 0 <= k < i ==> #[trigger] v@[k] < n,
            forall|k: int| 0 <= k < i ==> seen@[#[trigger] v@[k] as int],
            forall|x: int| 0 <= x < n && #[trigger] seen@[x] ==> exists|k: int| 0 <= k < i && v@[k] == x,
            forall|k: int, l: int| 0 <= k < i && 0 <= l < i && k != l ==> v@[k] != v@[l],
        decreases n - i,
    {
        let x = v[i];
        if x >= n {
            return false;
        }
        if seen[x] {
            proof {
                let k = choose|k: int| 0 <= k < i && v@[k] == x;
                assert(v@[k] == v@[i as int]);
            }
            return false;
        }
        seen.set(x, true);
        i = i + 1;
    }
    true
}

/// The layout of a header's text, checked piece by piece.
pub open spec fn layout_ok(b: Seq<u8>) -> bool {
    &&& b.len() >= ORDERING_START
    &&& slice_at(b, 0, 12) == num_reboots_key()
    &&& all_digits(slice_at(b, 12, 8))
    &&& b[20] == NEWLINE
    &&& slice_at(b, 21, 9) == next_idx_key()
    &&& all_digits(slice_at(b, 30, 4))
    &&& b[34] == NEWLINE
    &&& slice_at(b, 35, 9) == ordering_key()
    &&& is_list_text(b.subrange(ORDERING_START as int, b.len() as int))
}

proof fn lemma_layout(b: Seq<u8>)
    ensures
        is_header_text(b) <==> layout_ok(b),
{
    if is_header_text(b) {
        let f = choose|f: (nat, nat, Seq<usize>)|
            counters_fit(f.0, f.1) && b == #[trigger] header_text(f.0, f.1, f.2);
        lemma_header_parts(b, f.0, f.1, f.2);
        lemma_padded(f.0, NUM_REBOOTS_BYTES as nat);
        lemma_padded(f.1, NEXT_IDX_BYTES as nat);
        assert(b.subrange(ORDERING_START as int, b.len() as int) == list_text(f.2));
    }
    if layout_ok(b) {
        let nr = value_of(slice_at(b, 12, 8));
        let ni = value_of(slice_at(b, 30, 4));
        let ord = choose|s: Seq<usize>|
            b.subrange(ORDERING_START as int, b.len() as int) == #[trigger] list_text(s);
        lemma_padded_of_value(slice_at(b, 12, 8));
        lemma_padded_of_value(slice_at(b, 30, 4));
        lemma_header_parts(b, nr, ni, ord);
        let f = (nr, ni, ord);
        assert(counters_fit(f.0, f.1) && b == header_text(f.0, f.1, f.2));
    }
}

/// Read the three fields of a header's text, without checking its invariant.
fn parse_fields(b: &Vec<u8>) -> (r: Option<(usize, usize, Vec<usize>)>)
    ensures
        r is Some <==> is_header_text(b@),
        r matches Some(f) ==> counters_fit(f.0 as nat, f.1 as nat) && b@ == header_text(
            f.0 as nat,
            f.1 as nat,
            f.2@,
        ),
{
    proof {
        lemma_layout(b@);
    }
    let n = b.len();
    if n < ORDERING_START {
        return None;
    }
    if !matches_at(b, 0, &num_reboots_key_bytes()) || b[20] != NEWLINE || !matches_at(
        b,
        21,
        &next_idx_key_bytes(),
    ) || b[34] != NEWLINE || !matches_at(b, 35, &ordering_key_bytes()) {
        return None;
    }
    let num_reboots = match parse_number(b, 12, 20) {
        Some(v) => v,
        None => {
            proof {
                assert(slice_at(b@, 12, 8) == b@.subrange(12, 20));
                if all_digits(slice_at(b@, 12, 8)) {
                    lemma_padded_of_value(slice_at(b@, 12, 8));
                }
                crate::codec::lemma_pow10_fits_8();
            }
            return None;
        },
    };
    let next_idx = match parse_number(b, 30, 34) {
        Some(v) => v,
        None => {
            proof {
                assert(slice_at(b@, 30, 4) == b@.subrange(30, 34));
                if all_digits(slice_at(b@, 30, 4)) {
                    lemma_padded_of_value(slice_at(b@, 30, 4));
                }
                crate::codec::lemma_pow10_fits_8();
            }
            return None;
        },
    };
    let ordering = match parse_list(b, ORDERING_START) {
        Some(v) => v,
        None => {
            return None;
        },
    };
    proof {
        assert(slice_at(b@, 12, 8) == b@.subrange(12, 20));
        assert(slice_at(b@, 30, 4) == b@.subrange(30, 34));
        lemma_padded_of_value(slice_at(b@, 12, 8));
        lemma_padded_of_value(slice_at(b@, 30, 4));
        lemma_header_parts(b@, num_reboots as nat, next_idx as nat, ordering@);
    }
    Some((num_reboots, next_idx, ordering))
}

impl ManifestHeader {
    /// Read a header from the text of its file, and record where its two
    /// fixed-width fields lie, so that they can be overwritten in place.
    pub fn parse(b: &Vec<u8>) -> (r: Result<ManifestHeader, ManifestError>)
        ensures
            r matches Ok(h) ==> h.wf() && b@ == h.text(),
            r is Ok <==> is_valid_header_text(b@),
            r == Err::<ManifestHeader, ManifestError>(ManifestError::Malformed) <==> !is_header_text(b@),
            r == Err::<ManifestHeader, ManifestError>(ManifestError::Corrupt) <==> is_header_text(b@)
                && !is_valid_header_text(b@),
    {
        let (num_reboots, next_idx, ordering) = match parse_fields(b) {
            Some(f) => f,
            None => {
                proof {
                    if is_valid_header_text(b@) {
                        let f = choose|f: (nat, nat, Seq<usize>)|
                            counters_fit(f.0, f.1) && f.1 <= f.2.len() && is_permutation(f.2) && b@
                                == #[trigger] header_text(f.0, f.1, f.2);
                        assert(counters_fit(f.0, f.1) && b@ == header_text(f.0, f.1, f.2));
                    }
                }
                return Err(ManifestError::Malformed);
            },
        };
        proof {
            if is_valid_header_text(b@) {
                let f = choose|f: (nat, nat, Seq<usize>)|
                    counters_fit(f.0, f.1) && f.1 <= f.2.len() && is_permutation(f.2) && b@
                        == #[trigger] header_text(f.0, f.1, f.2);
                lemma_header_text_injective(
                    f.0,
                    f.1,
                    f.2,
                    num_reboots as nat,
                    next_idx as nat,
                    ordering@,
                );
            }
        }
        if !check_permutation(&ordering) || next_idx > ordering.len() {
            return Err(ManifestError::Corrupt);
        }
        let h = ManifestHeader {
            num_reboots,
            num_reboots_offset: NUM_REBOOTS_OFFSET,
            next_idx,
            next_idx_offset: NEXT_IDX_OFFSET,
            ordering,
        };
        proof {
            let f = (num_reboots as nat, next_idx as nat, h.ordering@);
            assert(counters_fit(f.0, f.1) && f.1 <= f.2.len() && is_permutation(f.2) && b@
                == header_text(f.0, f.1, f.2));
        }
        Ok(h)
    }
}


/// Format `value` as `width` digits, padding with zeroes in front.
///
/// Returns `None` when the decimal text of `value` is longer than `width`:
/// a counter that outgrows its field is an error, never a truncation.
pub fn format_int_field(value: usize, width: usize) -> (r: Option<Vec<u8>>)
    ensures
        r is None <==> decimal(value as nat).len() > width,
        r matches Some(v) ==> v@ == padded(value as nat, width as nat) && v@ == zeros(
            (width - decimal(value as nat).len()) as nat,
        ) + decimal(value as nat) && value_of(v@) == value,
{
    let bytes = num_digits(value);
    if bytes > width {
        return None;
    }
    proof {
        lemma_decimal_len_fits(value as nat, width as nat);
        lemma_padded(value as nat, width as nat);
        lemma_padded_is_decimal(value as nat, width as nat);
    }
    Some(format_fixed(value, width))
}

impl ManifestHeader {
    /// This header with its cursor moved on by one.
    pub open spec fn advanced(self) -> ManifestHeader {
        ManifestHeader { next_idx: (self.next_idx + 1) as usize, ..self }
    }

    /// This header with one more reboot counted.
    pub open spec fn rebooted(self) -> ManifestHeader {
        ManifestHeader { num_reboots: (self.num_reboots + 1) as usize, ..self }
    }

    /// The id of the next job to run, or `None` once the schedule is exhausted.
    pub fn next_job_id(&self) -> (r: Option<usize>)
        requires
            self.wf(),
        ensures
            r == self.next_job_spec(),
    {
        if self.next_idx < self.ordering.len() {
            Some(self.ordering[self.next_idx])
        } else {
            None
        }
    }

    /// Move the cursor on by one.
    ///
    /// Fails, and changes nothing, when the schedule is already exhausted or
    /// when the new cursor would not fit in its field.
    pub fn advance_next_idx(&mut self) -> (r: Result<(), ManifestError>)
        requires
            old(self).wf(),
        ensures
            final(self).wf(),
            r is Ok ==> *final(self) == old(self).advanced(),
            r is Err ==> *final(self) == *old(self),
            r is Ok <==> old(self).next_idx < old(self).ordering@.len() && old(self).next_idx + 1
                < pow10(NEXT_IDX_BYTES as nat),
            r == Err::<(), ManifestError>(ManifestError::ScheduleExhausted) <==> old(self).next_idx
                == old(self).ordering@.len(),
            r == Err::<(), ManifestError>(ManifestError::FieldTooWide) <==> old(self).next_idx
                < old(self).ordering@.len() && old(self).next_idx + 1 >= pow10(
                NEXT_IDX_BYTES as nat,
            ),
    {
        if self.next_idx >= self.ordering.len() {
            return Err(ManifestError::ScheduleExhausted);
        }
        let v = self.next_idx + 1;
        proof {
            lemma_decimal_len_fits(v as nat, NEXT_IDX_BYTES as nat);
        }
        if num_digits(v) > NEXT_IDX_BYTES {
            return Err(ManifestError::FieldTooWide);
        }
        self.next_idx = v;
        Ok(())
    }

    /// Count one more reboot.
    ///
    /// Fails, and changes nothing, when the new count would not fit in its field.
    pub fn increment_reboots(&mut self) -> (r: Result<(), ManifestError>)
        requires
            old(self).wf(),
        ensures
            final(self).wf(),
            r is Ok ==> *final(self) == old(self).rebooted(),
            r is Err ==> *final(self) == *old(self) && r == Err::<(), ManifestError>(
                ManifestError::FieldTooWide,
            ),
            r is Ok <==> old(self).num_reboots + 1 < pow10(NUM_REBOOTS_BYTES as nat),
    {
        proof {
            crate::codec::lemma_pow10_fits_8();
        }
        let v = self.num_reboots + 1;
        proof {
            lemma_decimal_len_fits(v as nat, NUM_REBOOTS_BYTES as nat);
        }
        if num_digits(v) > NUM_REBOOTS_BYTES {
            return Err(ManifestError::FieldTooWide);
        }
        self.num_reboots = v;
        Ok(())
    }

    /// The two in-place writes that bring the file up to date with this header:
    /// each fixed-width field, zero-padded, at the offset where it was found.
    pub fn sync(&self) -> (r: Vec<FieldPatch>)
        requires
            self.wf(),
        ensures
            r@.len() == 2,
            r@[0].offset == self.num_reboots_offset,
            r@[0].bytes@ == padded(self.num_reboots as nat, NUM_REBOOTS_BYTES as nat),
            r@[1].offset == self.next_idx_offset,
            r@[1].bytes@ == padded(self.next_idx as nat, NEXT_IDX_BYTES as nat),
    {
        let mut r: Vec<FieldPatch> = Vec::new();
        r.push(
            FieldPatch {
                offset: self.num_reboots_offset,
                bytes: format_fixed(self.num_reboots, NUM_REBOOTS_BYTES),
            },
        );
        r.push(
            FieldPatch {
                offset: self.next_idx_offset,
                bytes: format_fixed(self.next_idx, NEXT_IDX_BYTES),
            },
        );
        r
    }
}

/// The file after both fields of `h` have been written over `b` in place.
pub open spec fn synced(b: Seq<u8>, h: ManifestHeader) -> Seq<u8> {
    patched(
        patched(
            b,
            h.num_reboots_offset as int,
            padded(h.num_reboots as nat, NUM_REBOOTS_BYTES as nat),
        ),
        h.next_idx_offset as int,
        padded(h.next_idx as nat, NEXT_IDX_BYTES as nat),
    )
}

/// Syncing round-trips: writing the counters of `after` over the file of an
/// earlier state `before` of the same header gives exactly the file of
/// `after`, and any header read back from that file has the same counters and
/// the same ordering. Hence re-opening never changes the ordering.
pub proof fn lemma_sync_round_trip(before: ManifestHeader, after: ManifestHeader)
    requires
        before.wf(),
        after.wf(),
        after.ordering@ == before.ordering@,
    ensures
        synced(before.text(), after) == after.text(),
        is_valid_header_text(after.text()),
        forall|h: ManifestHeader|
            h.wf() && #[trigger] h.text() == after.text() ==> h.num_reboots == after.num_reboots
                && h.next_idx == after.next_idx && h.ordering@ == after.ordering@,
{
    let t = before.text();
    let nr = after.num_reboots as nat;
    let ni = after.next_idx as nat;
    let ord = after.ordering@;
    lemma_header_parts(t, before.num_reboots as nat, before.next_idx as nat, ord);
    lemma_padded(nr, NUM_REBOOTS_BYTES as nat);
    lemma_padded(ni, NEXT_IDX_BYTES as nat);
    let first_write = patched(t, 12, padded(nr, NUM_REBOOTS_BYTES as nat));
    let both_writes = patched(first_write, 30, padded(ni, NEXT_IDX_BYTES as nat));
    assert(first_write.len() == t.len());
    assert(slice_at(both_writes, 0, 12) =~= slice_at(t, 0, 12));
    assert(slice_at(both_writes, 12, 8) =~= padded(nr, NUM_REBOOTS_BYTES as nat));
    assert(both_writes[20] == t[20]);
    assert(slice_at(both_writes, 21, 9) =~= slice_at(t, 21, 9));
    assert(slice_at(both_writes, 30, 4) =~= padded(ni, NEXT_IDX_BYTES as nat));
    assert(both_writes[34] == t[34]);
    assert(slice_at(both_writes, 35, 9) =~= slice_at(t, 35, 9));
    assert(both_writes.subrange(ORDERING_START as int, both_writes.len() as int) =~= t.subrange(
        ORDERING_START as int,
        t.len() as int,
    ));
    lemma_header_parts(both_writes, nr, ni, ord);
    let f = (nr, ni, ord);
    assert(counters_fit(f.0, f.1) && f.1 <= f.2.len() && is_permutation(f.2) && after.text()
        == header_text(f.0, f.1, f.2));
    assert forall|h: ManifestHeader|
        h.wf() && #[trigger] h.text() == after.text() implies h.num_reboots == after.num_reboots
        && h.next_idx == after.next_idx && h.ordering@ == after.ordering@ by {
        lemma_header_text_injective(
            h.num_reboots as nat,
            h.next_idx as nat,
            h.ordering@,
            nr,
            ni,
            ord,
        );
    }
}

/// `h` with its cursor moved on `k` times.
pub open spec fn advanced_times(h: ManifestHeader, k: nat) -> ManifestHeader
    decreases k,
{
    if k == 0 {
        h
    } else {
        advanced_times(h, (k - 1) as nat).advanced()
    }
}

/// Starting from the first job, moving the cursor on once per job leaves no
/// job to run; before that, the `k`-th move leaves `ordering[k]` as the next.
pub proof fn lemma_advance_exhausts(h: ManifestHeader, k: nat)
    requires
        h.wf(),
        h.next_idx == 0,
        h.ordering@.len() <= usize::MAX,
        k <= h.ordering@.len(),
    ensures
        advanced_times(h, k).next_idx == k,
        advanced_times(h, k).ordering == h.ordering,
        k == h.ordering@.len() ==> advanced_times(h, k).next_job_spec() is None,
        k < h.ordering@.len() ==> advanced_times(h, k).next_job_spec() == Some(
            h.ordering@[k as int],
        ),
    decreases k,
{
    if k > 0 {
        lemma_advance_exhausts(h, (k - 1) as nat);
    }
}

/// Drives the header: hands out the next job and records what became of it.
#[derive(Debug)]
pub struct ManifestManager {
    /// The manifest header.
    pub manifest_hdr: ManifestHeader,
    /// The status of the job that ran last, not yet written out.
    pub cur_status: JobStatus,
    /// The id of the job that ran last, if one did.
    pub cur_job: Option<usize>,
}

impl ManifestManager {
    pub open spec fn wf(&self) -> bool {
        self.manifest_hdr.wf()
    }

    pub open spec fn next_job_spec(&self) -> Option<usize> {
        self.manifest_hdr.next_job_spec()
    }

    /// The manager after the job it handed out ended with `status`.
    pub open spec fn after_outcome(self, status: JobStatus) -> ManifestManager {
        ManifestManager {
            manifest_hdr: if status.is_terminal() {
                self.manifest_hdr.advanced()
            } else {
                self.manifest_hdr
            },
            cur_status: status,
            cur_job: self.manifest_hdr.next_job_spec(),
        }
    }

    /// A manager over `manifest_hdr`, with no outcome recorded yet.
    pub fn new(manifest_hdr: ManifestHeader) -> (r: ManifestManager)
        requires
            manifest_hdr.wf(),
        ensures
            r.wf(),
            r.manifest_hdr == manifest_hdr,
            r.cur_status == JobStatus::Outstanding,
            r.cur_job is None,
    {
        ManifestManager { manifest_hdr, cur_status: JobStatus::Outstanding, cur_job: None }
    }

    /// Returns the id of the next job to run, or `None` if there are no more
    /// outstanding jobs.
    pub fn next_job(&self) -> (r: Option<usize>)
        requires
            self.wf(),
        ensures
            r == self.next_job_spec(),
    {
        self.manifest_hdr.next_job_id()
    }

    /// Records that the job handed out by `next_job` ended with `status`.
    ///
    /// A terminal status closes the job's slot and moves the cursor on; an
    /// `Outstanding` one leaves the cursor, so that the same job runs again.
    pub fn update_status(&mut self, status: JobStatus) -> (r: Result<(), ManifestError>)
        requires
            old(self).wf(),
        ensures
            final(self).wf(),
            r is Ok ==> *final(self) == old(self).after_outcome(status),
            r is Err ==> *final(self) == *old(self),
            r is Ok <==> (status.is_terminal() ==> old(self).manifest_hdr.next_idx < old(
                self,
            ).manifest_hdr.ordering@.len() && old(self).manifest_hdr.next_idx + 1 < pow10(
                NEXT_IDX_BYTES as nat,
            )),
            r == Err::<(), ManifestError>(ManifestError::ScheduleExhausted) <==> status.is_terminal()
                && old(self).manifest_hdr.next_idx == old(self).manifest_hdr.ordering@.len(),
            r == Err::<(), ManifestError>(ManifestError::FieldTooWide) <==> status.is_terminal()
                && old(self).manifest_hdr.next_idx < old(self).manifest_hdr.ordering@.len()
                && old(self).manifest_hdr.next_idx + 1 >= pow10(NEXT_IDX_BYTES as nat),
    {
        let job = self.manifest_hdr.next_job_id();
        match status {
            JobStatus::Done | JobStatus::Error => {
                let res = self.manifest_hdr.advance_next_idx();
                if res.is_err() {
                    return res;
                }
            },
            JobStatus::Outstanding => {},
        }
        self.cur_status = status;
        self.cur_job = job;
        Ok(())
    }

    /// Counts one more reboot: once per run of the loop, whatever the outcome.
    pub fn update_num_reboots(&mut self) -> (r: Result<(), ManifestError>)
        requires
            old(self).wf(),
        ensures
            final(self).wf(),
            r is Ok ==> *final(self) == (ManifestManager {
                manifest_hdr: old(self).manifest_hdr.rebooted(),
                ..*old(self)
            }),
            r is Err ==> *final(self) == *old(self) && r == Err::<(), ManifestError>(
                ManifestError::FieldTooWide,
            ),
            r is Ok <==> old(self).manifest_hdr.num_reboots + 1 < pow10(NUM_REBOOTS_BYTES as nat),
    {
        self.manifest_hdr.increment_reboots()
    }

    /// What must be written out, in this order: the header's fields in place,
    /// then the status of the job that ran, if one did, to the job table.
    pub fn sync(&self) -> (r: (Vec<FieldPatch>, Option<(usize, JobStatus)>))
        requires
            self.wf(),
        ensures
            r.0@.len() == 2,
            r.0@[0].offset == self.manifest_hdr.num_reboots_offset,
            r.0@[0].bytes@ == padded(self.manifest_hdr.num_reboots as nat, NUM_REBOOTS_BYTES as nat),
            r.0@[1].offset == self.manifest_hdr.next_idx_offset,
            r.0@[1].bytes@ == padded(self.manifest_hdr.next_idx as nat, NEXT_IDX_BYTES as nat),
            r.1 == match self.cur_job {
                Some(j) => Some((j, self.cur_status)),
                None => None::<(usize, JobStatus)>,
            },
    {
        let patches = self.manifest_hdr.sync();
        let update = match self.cur_job {
            Some(j) => Some((j, self.cur_status)),
            None => None,
        };
        (patches, update)
    }
}

/// A retry leaves the cursor where it was and hands out the same job again; a
/// terminal outcome moves the cursor on by exactly one. The ordering stays.
pub proof fn lemma_outcome_moves_cursor(m: ManifestManager, status: JobStatus)
    requires
        m.wf(),
    ensures
        m.after_outcome(status).manifest_hdr.next_idx == m.manifest_hdr.next_idx + (if status.is_terminal() {
            1int
        } else {
            0int
        }),
        m.after_outcome(status).manifest_hdr.ordering == m.manifest_hdr.ordering,
        m.after_outcome(status).manifest_hdr.num_reboots == m.manifest_hdr.num_reboots,
        !status.is_terminal() ==> m.after_outcome(status).next_job_spec() == m.next_job_spec(),
{
    crate::codec::lemma_pow10_fits_8();
}

} // verus!
