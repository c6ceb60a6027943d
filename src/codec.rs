//! Decimal text as it appears in the manifest file: fixed-width zero-padded
//! counters and comma-separated lists of job ids.
use vstd::prelude::*;

verus! {

/// The byte `'0'`.
pub const ZERO: u8 = 48;

/// The byte `','` that separates the ids of a list.
pub const COMMA: u8 = 44;

pub open spec fn is_digit(b: u8) -> bool {
    ZERO <= b && b <= 57
}

/// The ASCII digit for `d % 10`.
pub open spec fn digit(d: nat) -> u8 {
    (ZERO + d % 10) as u8
}

pub open spec fn all_digits(s: Seq<u8>) -> bool {
    forall|i: int| 0 <= i < s.len() ==> is_digit(#[trigger] s[i])
}

/// The number that the digits `s` spell out, most significant first.
pub open spec fn value_of(s: Seq<u8>) -> nat
    decreases s.len(),
{
    if s.len() == 0 {
        0
    } else {
        value_of(s.drop_last()) * 10 + (s.last() - ZERO) as nat
    }
}

pub open spec fn pow10(w: nat) -> nat
    decreases w,
{
    if w == 0 {
        1
    } else {
        10 * pow10((w - 1) as nat)
    }
}

/// The last `w` decimal digits of `n`: for `n < pow10(w)`, the decimal text of
/// `n` with zeroes in front, `w` bytes in all.
pub open spec fn padded(n: nat, w: nat) -> Seq<u8>
    decreases w,
{
    if w == 0 {
        Seq::empty()
    } else {
        padded(n / 10, (w - 1) as nat).push(digit(n % 10))
    }
}

/// The decimal text of `n`, without leading zeroes.
pub open spec fn decimal(n: nat) -> Seq<u8>
    decreases n,
{
    if n < 10 {
        seq![digit(n)]
    } else {
        decimal(n / 10).push(digit(n % 10))
    }
}

/// Digits that `decimal` could have written: at least one, and no leading zero.
pub open spec fn is_canonical(s: Seq<u8>) -> bool {
    s.len() >= 1 && all_digits(s) && (s.len() == 1 || s[0] != ZERO)
}

/// The ids of `s` in decimal, separated by commas.
pub open spec fn list_text(s: Seq<usize>) -> Seq<u8>
    decreases s.len(),
{
    if s.len() == 0 {
        Seq::empty()
    } else if s.len() == 1 {
        decimal(s[0] as nat)
    } else {
        decimal(s[0] as nat) + seq![COMMA] + list_text(s.drop_first())
    }
}

/// Whether `t` is the text of some list of ids.
pub open spec fn is_list_text(t: Seq<u8>) -> bool {
    exists|s: Seq<usize>| t == #[trigger] list_text(s)
}

pub proof fn lemma_decimal_len_bound(n: nat)
    ensures
        1 <= decimal(n).len() <= n + 1,
        n >= 10 ==> decimal(n).len() <= n,
    decreases n,
{
    if n >= 10 {
        lemma_decimal_len_bound(n / 10);
    }
}

/// `decimal(n).len() <= w` says exactly that `n` fits in `w` digits.
pub proof fn lemma_decimal_len_fits(n: nat, w: nat)
    requires
        w >= 1,
    ensures
        decimal(n).len() <= w <==> n < pow10(w),
    decreases n,
{
    lemma_pow10_pos(w);
    if n >= 10 {
        lemma_decimal_len_bound(n / 10);
        let p = pow10((w - 1) as nat);
        if w >= 2 {
            lemma_decimal_len_fits(n / 10, (w - 1) as nat);
            assert(n / 10 < p <==> n < 10 * p) by (nonlinear_arith);
        } else {
            assert(p == 1);
        }
    } else {
        if w >= 2 {
            lemma_pow10_pos((w - 1) as nat);
        }
    }
}

pub proof fn lemma_pow10_pos(w: nat)
    ensures
        pow10(w) >= 1,
        w >= 1 ==> pow10(w) >= 10,
    decreases w,
{
    if w >= 1 {
        lemma_pow10_pos((w - 1) as nat);
    }
}

/// Eight digits always fit in a `usize`.
pub proof fn lemma_pow10_fits_8()
    ensures
        pow10(8) == 100000000,
        pow10(4) == 10000,
{
    reveal_with_fuel(pow10, 9);
}

proof fn lemma_value_single(s: Seq<u8>)
    requires
        s.len() == 1,
    ensures
        value_of(s) == (s[0] - ZERO) as nat,
{
    assert(s.drop_last() =~= Seq::<u8>::empty());
    assert(value_of(s.drop_last()) == 0);
    assert(s.last() == s[0]);
}

proof fn lemma_value_push(s: Seq<u8>, b: u8)
    ensures
        value_of(s.push(b)) == value_of(s) * 10 + (b - ZERO) as nat,
{
    assert(s.push(b).drop_last() =~= s);
}

/// `decimal` writes canonical digits that read back as the same number.
pub proof fn lemma_decimal(n: nat)
    ensures
        is_canonical(decimal(n)),
        value_of(decimal(n)) == n,
    decreases n,
{
    if n < 10 {
        lemma_value_single(decimal(n));
    } else {
        let d = decimal(n / 10);
        lemma_decimal(n / 10);
        lemma_value_push(d, digit(n % 10));
        if d[0] == ZERO {
            lemma_value_single(d);
        }
        assert(decimal(n)[0] == d[0]);
    }
}

proof fn lemma_leading_nonzero(s: Seq<u8>)
    requires
        s.len() >= 1,
        all_digits(s),
        s[0] != ZERO,
    ensures
        value_of(s) >= 1,
    decreases s.len(),
{
    if s.len() == 1 {
        lemma_value_single(s);
    } else {
        lemma_leading_nonzero(s.drop_last());
    }
}

/// Canonical digits are the decimal text of the number they spell out.
pub proof fn lemma_decimal_of_value(s: Seq<u8>)
    requires
        is_canonical(s),
    ensures
        decimal(value_of(s)) == s,
    decreases s.len(),
{
    if s.len() == 1 {
        lemma_value_single(s);
        assert(decimal(value_of(s)) =~= s);
    } else {
        let p = s.drop_last();
        assert(p[0] == s[0]);
        lemma_leading_nonzero(p);
        lemma_decimal_of_value(p);
        assert(s =~= p.push(s.last()));
        lemma_value_push(p, s.last());
    }
}

/// A number below `pow10(w)` reads back from its `w` padded digits.
pub proof fn lemma_padded(n: nat, w: nat)
    requires
        n < pow10(w),
    ensures
        padded(n, w).len() == w,
        all_digits(padded(n, w)),
        value_of(padded(n, w)) == n,
    decreases w,
{
    if w > 0 {
        let p = pow10((w - 1) as nat);
        assert(n / 10 < p) by (nonlinear_arith)
            requires
                n < 10 * p,
        ;
        lemma_padded(n / 10, (w - 1) as nat);
        lemma_value_push(padded(n / 10, (w - 1) as nat), digit(n % 10));
    }
}

/// `k` zero digits.
pub open spec fn zeros(k: nat) -> Seq<u8> {
    Seq::new(k, |i: int| ZERO)
}

proof fn lemma_padded_zero(w: nat)
    ensures
        padded(0, w) == zeros(w),
    decreases w,
{
    if w > 0 {
        lemma_padded_zero((w - 1) as nat);
        assert(padded(0, w) =~= zeros(w));
    }
}

/// For a number that fits, the padded text is zeroes followed by its decimal
/// text.
pub proof fn lemma_padded_is_decimal(n: nat, w: nat)
    requires
        w >= 1,
        n < pow10(w),
    ensures
        decimal(n).len() <= w,
        padded(n, w) == zeros((w - decimal(n).len()) as nat) + decimal(n),
    decreases w,
{
    lemma_decimal_len_bound(n);
    lemma_decimal_len_fits(n, w);
    let p = pow10((w - 1) as nat);
    if n < 10 {
        lemma_padded_zero((w - 1) as nat);
        assert(n / 10 == 0);
        assert(padded(n, w) =~= zeros((w - decimal(n).len()) as nat) + decimal(n));
    } else {
        assert(n / 10 < p) by (nonlinear_arith)
            requires
                n < 10 * p,
        ;
        if w == 1 {
            assert(p == 1);
        }
        lemma_padded_is_decimal(n / 10, (w - 1) as nat);
        assert(padded(n, w) =~= zeros((w - decimal(n).len()) as nat) + decimal(n));
    }
}

/// Any `w` digits are the padded text of the number they spell out.
pub proof fn lemma_padded_of_value(s: Seq<u8>)
    requires
        all_digits(s),
    ensures
        value_of(s) < pow10(s.len()),
        padded(value_of(s), s.len()) == s,
    decreases s.len(),
{
    if s.len() == 0 {
        assert(padded(0, 0) =~= s);
    } else {
        let p = s.drop_last();
        lemma_padded_of_value(p);
        let vp = value_of(p);
        let bp = pow10(p.len());
        assert(vp * 10 + 9 < 10 * bp) by (nonlinear_arith)
            requires
                vp < bp,
        ;
        assert(s =~= p.push(s.last()));
    }
}

/// Appending one id to a non-empty list appends a comma and its decimal text.
pub proof fn lemma_list_push(s: Seq<usize>, x: usize)
    requires
        s.len() >= 1,
    ensures
        list_text(s.push(x)) == list_text(s) + seq![COMMA] + decimal(x as nat),
    decreases s.len(),
{
    let t = s.push(x);
    assert(t[0] == s[0]);
    if s.len() == 1 {
        assert(t.drop_first() =~= seq![x]);
        assert(list_text(t.drop_first()) == decimal(x as nat));
        assert(list_text(s) == decimal(s[0] as nat));
    } else {
        assert(t.drop_first() =~= s.drop_first().push(x));
        lemma_list_push(s.drop_first(), x);
        let a = decimal(s[0] as nat) + seq![COMMA];
        assert(list_text(t) == a + list_text(s.drop_first().push(x)));
        assert(list_text(s) == a + list_text(s.drop_first()));
        assert(a + (list_text(s.drop_first()) + seq![COMMA] + decimal(x as nat)) =~= a
            + list_text(s.drop_first()) + seq![COMMA] + decimal(x as nat));
    }
}

proof fn lemma_no_comma(n: nat)
    ensures
        forall|i: int| 0 <= i < decimal(n).len() ==> #[trigger] decimal(n)[i] != COMMA,
{
    lemma_decimal(n);
}

/// Different lists of ids have different texts.
pub proof fn lemma_list_text_injective(s: Seq<usize>, t: Seq<usize>)
    requires
        list_text(s) == list_text(t),
    ensures
        s == t,
    decreases s.len(),
{
    if s.len() == 0 || t.len() == 0 {
        if s.len() > 0 {
            lemma_decimal(s[0] as nat);
            assert(list_text(s).len() > 0);
        }
        if t.len() > 0 {
            lemma_decimal(t[0] as nat);
            assert(list_text(t).len() > 0);
        }
        assert(s =~= t);
    } else {
        let a = decimal(s[0] as nat);
        let b = decimal(t[0] as nat);
        let text = list_text(s);
        lemma_no_comma(s[0] as nat);
        lemma_no_comma(t[0] as nat);
        lemma_decimal(s[0] as nat);
        lemma_decimal(t[0] as nat);
        if a.len() < b.len() {
            assert(text[a.len() as int] == b[a.len() as int]);
            assert(s.len() > 1);
            assert(text[a.len() as int] == COMMA);
        }
        if b.len() < a.len() {
            assert(text[b.len() as int] == a[b.len() as int]);
            assert(t.len() > 1);
            assert(text[b.len() as int] == COMMA);
        }
        assert(a =~= text.subrange(0, a.len() as int));
        assert(b =~= text.subrange(0, b.len() as int));
        assert(s[0] == t[0]);
        if s.len() == 1 || t.len() == 1 {
            assert(s.len() == 1 && t.len() == 1);
            assert(s =~= t);
        } else {
            let rs = list_text(s.drop_first());
            let rt = list_text(t.drop_first());
            assert(rs =~= text.subrange(a.len() as int + 1, text.len() as int));
            assert(rt =~= text.subrange(a.len() as int + 1, text.len() as int));
            lemma_list_text_injective(s.drop_first(), t.drop_first());
            assert(s =~= seq![s[0]] + s.drop_first());
            assert(t =~= seq![t[0]] + t.drop_first());
        }
    }
}

/// Append the decimal text of `n` to `out`.
pub fn push_decimal(out: &mut Vec<u8>, n: usize)
    ensures
        final(out)@ == old(out)@ + decimal(n as nat),
    decreases n,
{
    if n < 10 {
        out.push(ZERO + n as u8);
        assert(final(out)@ =~= old(out)@ + decimal(n as nat));
    } else {
        push_decimal(out, n / 10);
        out.push(ZERO + (n % 10) as u8);
        assert(final(out)@ =~= old(out)@ + decimal(n as nat));
    }
}

/// The last `width` decimal digits of `value`, zero-padded.
pub fn format_fixed(value: usize, width: usize) -> (r: Vec<u8>)
    ensures
        r@ == padded(value as nat, width as nat),
    decreases width,
{
    if width == 0 {
        Vec::new()
    } else {
        let mut r = format_fixed(value / 10, width - 1);
        r.push(ZERO + (value % 10) as u8);
        r
    }
}

/// Append the ids of `ids`, in decimal and separated by commas, to `out`.
pub fn push_list(out: &mut Vec<u8>, ids: &Vec<usize>)
    ensures
        final(out)@ == old(out)@ + list_text(ids@),
{
    let ghost start = out@;
    let mut i: usize = 0;
    while i < ids.len()
        invariant
            i <= ids.len(),
            out@ == start + list_text(ids@.subrange(0, i as int)),
        decreases ids.len() - i,
    {
        let ghost before = ids@.subrange(0, i as int);
        if i > 0 {
            out.push(COMMA);
        }
        push_decimal(out, ids[i]);
        proof {
            let after = ids@.subrange(0, i + 1);
            if i == 0 {
                assert(after =~= seq![ids@[0]]);
            } else {
                assert(after =~= before.push(ids@[i as int]));
                lemma_list_push(before, ids@[i as int]);
            }
            assert(out@ =~= start + list_text(after));
        }
        i = i + 1;
    }
    assert(ids@.subrange(0, ids.len() as int) =~= ids@);
}

/// Read the digits `b[start..end]` as a number.
///
/// Returns `None` when a byte there is not a digit or when the number does not
/// fit in a `usize`. An empty range reads as zero.
pub fn parse_number(b: &Vec<u8>, start: usize, end: usize) -> (r: Option<usize>)
    requires
        start <= end <= b.len(),
    ensures
        r is Some <==> all_digits(b@.subrange(start as int, end as int)) && value_of(
            b@.subrange(start as int, end as int),
        ) <= usize::MAX,
        r matches Some(v) ==> v == value_of(b@.subrange(start as int, end as int)),
{
    let ghost seg = b@.subrange(start as int, end as int);
    let mut acc: usize = 0;
    let mut i: usize = start;
    while i < end
        invariant
            start <= i <= end <= b.len(),
            seg == b@.subrange(start as int, end as int),
            all_digits(b@.subrange(start as int, i as int)),
            acc == value_of(b@.subrange(start as int, i as int)),
        decreases end - i,
    {
        let c = b[i];
        let ghost pre = b@.subrange(start as int, i as int);
        let ghost next = b@.subrange(start as int, i + 1);
        assert(next =~= pre.push(c));
        if c < ZERO || c > 57 {
            assert(!is_digit(seg[i - start]));
            return None;
        }
        let d = (c - ZERO) as usize;
        proof {
            lemma_value_push(pre, c);
        }
        if acc > (usize::MAX - d) / 10 {
            proof {
                lemma_value_prefix(seg, i + 1 - start);
                assert(seg.subrange(0, i + 1 - start) =~= next);
            }
            return None;
        }
        acc = acc * 10 + d;
        i = i + 1;
    }
    assert(b@.subrange(start as int, i as int) =~= seg);
    Some(acc)
}

/// A prefix of digits spells out no more than the whole.
proof fn lemma_value_prefix(s: Seq<u8>, k: int)
    requires
        0 <= k <= s.len(),
    ensures
        all_digits(s) ==> value_of(s.subrange(0, k)) <= value_of(s),
    decreases s.len(),
{
    if k < s.len() {
        let p = s.drop_last();
        lemma_value_prefix(p, k);
        assert(p.subrange(0, k) =~= s.subrange(0, k));
        if all_digits(s) {
            assert(all_digits(p));
        }
    } else {
        assert(s.subrange(0, k) =~= s);
    }
}

/// Read `b[start..]` as a comma-separated list of ids in canonical decimal.
///
/// Returns `None` exactly when that text is not the text of any list.
pub fn parse_list(b: &Vec<u8>, start: usize) -> (r: Option<Vec<usize>>)
    requires
        start <= b.len(),
    ensures
        r matches Some(v) ==> b@.subrange(start as int, b@.len() as int) == list_text(v@),
        r is Some <==> is_list_text(b@.subrange(start as int, b@.len() as int)),
{
    let n = b.len();
    let ghost seg = b@.subrange(start as int, b@.len() as int);
    let ghost has_w = is_list_text(seg);
    let ghost w = if has_w {
        choose|s: Seq<usize>| b@.subrange(start as int, b@.len() as int) == #[trigger] list_text(s)
    } else {
        Seq::empty()
    };
    let mut out: Vec<usize> = Vec::new();
    if start == n {
        assert(seg =~= list_text(out@));
        return Some(out);
    }
    proof {
        if has_w && w.len() == 0 {
            assert(seg.len() == 0);
        }
    }
    proof {
        assert(w.subrange(0, w.len() as int) =~= w);
    }
    let mut i: usize = start;
    loop
        invariant
            start <= i <= n,
            n == b.len(),
            start < n,
            seg == b@.subrange(start as int, n as int),
            out@.len() == 0 ==> i == start,
            out@.len() > 0 ==> b@.subrange(start as int, i as int) == list_text(out@) + seq![
                COMMA,
            ],
            has_w == is_list_text(seg),
            has_w ==> seg == list_text(w),
            has_w ==> out@.len() < w.len(),
            has_w ==> out@ == w.subrange(0, out@.len() as int),
            has_w ==> b@.subrange(i as int, n as int) == list_text(
                w.subrange(out@.len() as int, w.len() as int),
            ),
        decreases n - i,
    {
        let mut j: usize = i;
        while j < n && b[j] != COMMA
            invariant
                i <= j <= n,
                n == b.len(),
                forall|k: int| i <= k < j ==> b@[k] != COMMA,
            decreases n - j,
        {
            j = j + 1;
        }
        let ghost k = out@.len() as int;
        let ghost rest = w.subrange(k, w.len() as int);
        let ghost tok = b@.subrange(i as int, j as int);
        proof {
            if has_w {
                let d = decimal(rest[0] as nat);
                lemma_decimal(rest[0] as nat);
                lemma_no_comma(rest[0] as nat);
                let tail = b@.subrange(i as int, n as int);
                assert(tail == list_text(rest));
                if rest.len() > 1 {
                    assert(tail =~= d + seq![COMMA] + list_text(rest.drop_first()));
                    assert(tail[d.len() as int] == COMMA);
                } else {
                    assert(tail =~= d);
                }
                assert forall|x: int| 0 <= x < d.len() implies b@[i + x] == d[x] by {
                    assert(tail[x] == b@[i + x]);
                }
                if j < i + d.len() {
                    assert(b@[j as int] == d[j - i]);
                }
                if j > i + d.len() {
                    assert(b@[i + d.len()] == tail[d.len() as int]);
                }
                assert(j == i + d.len());
                assert(tok =~= d);
            }
        }
        assert(has_w ==> tok == decimal(rest[0] as nat) && is_canonical(tok) && value_of(tok)
            == rest[0]);
        if j == i {
            assert(!has_w);
            return None;
        }
        if b[i] == ZERO && j - i > 1 {
            assert(tok[0] == ZERO);
            assert(!has_w);
            return None;
        }
        let parsed = parse_number(b, i, j);
        let v = match parsed {
            Some(v) => v,
            None => {
                assert(!has_w);
                return None;
            },
        };
        proof {
            assert(is_canonical(tok));
            lemma_decimal_of_value(tok);
        }
        let ghost before = out@;
        out.push(v);
        proof {
            if before.len() == 0 {
                assert(out@ =~= seq![v]);
                assert(b@.subrange(start as int, j as int) =~= list_text(out@));
            } else {
                lemma_list_push(before, v);
                assert(b@.subrange(start as int, j as int) =~= b@.subrange(start as int, i as int)
                    + tok);
            }
            if has_w {
                assert(v == rest[0]);
                assert(out@ =~= w.subrange(0, out@.len() as int));
            }
        }
        if j == n {
            proof {
                if has_w {
                    if rest.len() > 1 {
                        assert(b@[j as int] == COMMA);
                    }
                }
            }
            assert(b@.subrange(start as int, j as int) == seg);
            return Some(out);
        }
        proof {
            assert(b@[j as int] == COMMA);
            assert(b@.subrange(start as int, j + 1) =~= b@.subrange(start as int, j as int)
                + seq![COMMA]);
            if has_w {
                let d = decimal(rest[0] as nat);
                let tail = b@.subrange(i as int, n as int);
                if rest.len() == 1 {
                    assert(tail =~= d);
                    assert(false);
                }
                assert(tail =~= d + seq![COMMA] + list_text(rest.drop_first()));
                assert(rest.drop_first() =~= w.subrange(out@.len() as int, w.len() as int));
                assert(b@.subrange(j + 1, n as int) =~= tail.subrange(
                    d.len() as int + 1,
                    tail.len() as int,
                ));
            }
        }
        i = j + 1;
    }
}

} // verus!
