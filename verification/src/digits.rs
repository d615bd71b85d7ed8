//! Decimal text for version numbers: rendering a number to its canonical
//! digit string, reading one back, and small byte-sequence helpers shared by
//! the requirement parser and the alias table.

use vstd::prelude::*;

verus! {

pub open spec fn is_ascii_digit(b: u8) -> bool {
    48 <= b && b <= 57
}

pub open spec fn all_digits(s: Seq<u8>) -> bool {
    forall|i: int| 0 <= i < s.len() ==> is_ascii_digit(#[trigger] s[i])
}

pub open spec fn digit_val(b: u8) -> nat {
    if is_ascii_digit(b) {
        (b - 48) as nat
    } else {
        0
    }
}

/// Numeric value of a digit string, most significant digit first.
pub open spec fn dec_value(s: Seq<u8>) -> nat
    decreases s.len(),
{
    if s.len() == 0 {
        0
    } else {
        10 * dec_value(s.drop_last()) + digit_val(s.last())
    }
}

/// Canonical decimal rendering of a number: no leading zeros.
pub open spec fn dec_render(n: nat) -> Seq<u8>
    decreases n,
{
    if n < 10 {
        seq![(48 + n) as u8]
    } else {
        dec_render(n / 10).push((48 + n % 10) as u8)
    }
}

pub proof fn lemma_dec_render_wf(n: nat)
    ensures
        all_digits(dec_render(n)),
        dec_render(n).len() >= 1,
    decreases n,
{
    if n >= 10 {
        lemma_dec_render_wf(n / 10);
        assert(forall|i: int| 0 <= i < dec_render(n).len() ==> is_ascii_digit(
            #[trigger] dec_render(n)[i],
        )) by {
            assert(forall|i: int|
                0 <= i < dec_render(n / 10).len() ==> dec_render(n)[i] == dec_render(n / 10)[i]);
        }
    }
}

/// Reading back the canonical rendering gives the number itself.
pub proof fn lemma_dec_value_of_render(n: nat)
    ensures
        dec_value(dec_render(n)) == n,
    decreases n,
{
    if n < 10 {
        assert(dec_render(n).drop_last() =~= Seq::<u8>::empty());
        assert(dec_value(Seq::<u8>::empty()) == 0);
        assert(dec_render(n).last() == (48 + n) as u8);
        assert(digit_val((48 + n) as u8) == n);
    } else {
        lemma_dec_value_of_render(n / 10);
        assert(dec_render(n).drop_last() =~= dec_render(n / 10));
        assert(dec_render(n).last() == (48 + n % 10) as u8);
        assert(digit_val((48 + n % 10) as u8) == n % 10);
        assert(10 * (n / 10) + n % 10 == n) by (nonlinear_arith);
    }
}

/// The value of a prefix never exceeds the value of the whole digit string.
pub proof fn lemma_dec_value_prefix(s: Seq<u8>, i: int)
    requires
        0 <= i <= s.len(),
    ensures
        dec_value(s.take(i)) <= dec_value(s),
    decreases s.len() - i,
{
    if i < s.len() {
        assert(s.take(i + 1).drop_last() =~= s.take(i));
        assert(s.take(i + 1).last() == s[i]);
        lemma_dec_value_prefix(s, i + 1);
        assert(s.take(s.len() as int) =~= s);
    } else {
        assert(s.take(i) =~= s);
    }
}

pub fn render_u64(n: u64) -> (r: Vec<u8>)
    ensures
        r@ == dec_render(n as nat),
    decreases n,
{
    if n < 10 {
        let mut r: Vec<u8> = Vec::new();
        r.push(48 + n as u8);
        assert(r@ =~= dec_render(n as nat));
        r
    } else {
        let mut r = render_u64(n / 10);
        r.push(48 + (n % 10) as u8);
        assert(r@ =~= dec_render(n as nat));
        r
    }
}

/// Read the digit string `s[start..end]` as a `u64`: `Some` exactly when the
/// range is a non-empty run of digits whose value fits.
pub fn parse_u64_digits(s: &[u8], start: usize, end: usize) -> (r: Option<u64>)
    requires
        start <= end <= s@.len(),
    ensures
        ({
            let t = s@.subrange(start as int, end as int);
            match r {
                Some(v) => t.len() >= 1 && all_digits(t) && v as nat == dec_value(t),
                None => !(t.len() >= 1 && all_digits(t) && dec_value(t) <= u64::MAX),
            }
        }),
{
    let ghost t = s@.subrange(start as int, end as int);
    if start == end {
        return None;
    }
    let mut acc: u64 = 0;
    let mut i: usize = start;
    while i < end
        invariant
            start <= i <= end <= s@.len(),
            t == s@.subrange(start as int, end as int),
            acc as nat == dec_value(t.take(i - start)),
            all_digits(t.take(i - start)),
        decreases end - i,
    {
        let b = s[i];
        assert(t[i - start] == b);
        if b < 48 || b > 57 {
            assert(!all_digits(t));
            return None;
        }
        let d: u64 = (b - 48) as u64;
        assert(t.take(i - start + 1).drop_last() =~= t.take(i - start));
        assert(t.take(i - start + 1).last() == b);
        if acc > (u64::MAX - d) / 10 {
            proof {
                assert(10 * acc as nat + d as nat > u64::MAX) by (nonlinear_arith)
                    requires
                        acc as nat > (u64::MAX - d as nat) / 10,
                        d as nat <= 9,
                ;
                assert(dec_value(t.take(i - start + 1)) > u64::MAX);
                lemma_dec_value_prefix(t, i - start + 1);
            }
            return None;
        }
        acc = acc * 10 + d;
        i += 1;
    }
    assert(t.take(end - start) =~= t);
    Some(acc)
}

pub fn bytes_eq(a: &[u8], b: &[u8]) -> (r: bool)
    ensures
        r == (a@ == b@),
{
    if a.len() != b.len() {
        assert(a@ != b@);
        return false;
    }
    let n = a.len();
    let mut i: usize = 0;
    while i < n
        invariant
            0 <= i <= n,
            n == a@.len() == b@.len(),
            forall|j: int| 0 <= j < i ==> a@[j] == b@[j],
        decreases n - i,
    {
        if a[i] != b[i] {
            return false;
        }
        i += 1;
    }
    assert(a@ =~= b@);
    true
}

pub fn copy_bytes(src: &[u8]) -> (r: Vec<u8>)
    ensures
        r@ == src@,
{
    let mut r: Vec<u8> = Vec::new();
    let n = src.len();
    let mut i: usize = 0;
    while i < n
        invariant
            0 <= i <= n,
            n == src@.len(),
            r@ == src@.take(i as int),
        decreases n - i,
    {
        r.push(src[i]);
        assert(r@ =~= src@.take(i + 1 as int));
        i += 1;
    }
    assert(src@.take(n as int) =~= src@);
    r
}

pub fn copy_range(src: &[u8], start: usize, end: usize) -> (r: Vec<u8>)
    requires
        start <= end <= src@.len(),
    ensures
        r@ == src@.subrange(start as int, end as int),
{
    let mut r: Vec<u8> = Vec::new();
    let mut i: usize = start;
    while i < end
        invariant
            start <= i <= end <= src@.len(),
            r@ == src@.subrange(start as int, i as int),
        decreases end - i,
    {
        r.push(src[i]);
        assert(r@ =~= src@.subrange(start as int, i + 1 as int));
        i += 1;
    }
    r
}

pub fn append_bytes(dst: &mut Vec<u8>, src: &[u8])
    ensures
        final(dst)@ == old(dst)@ + src@,
{
    let n = src.len();
    let mut i: usize = 0;
    while i < n
        invariant
            0 <= i <= n,
            n == src@.len(),
            dst@ == old(dst)@ + src@.take(i as int),
        decreases n - i,
    {
        dst.push(src[i]);
        assert(dst@ =~= old(dst)@ + src@.take(i + 1 as int));
        i += 1;
    }
    assert(old(dst)@ + src@.take(n as int) =~= old(dst)@ + src@);
}


/// A table of byte vectors viewed deeply is its per-entry views.
pub proof fn lemma_deep_view_names(v: Vec<Vec<u8>>)
    ensures
        v.deep_view().len() == v@.len(),
        forall|j: int| 0 <= j < v@.len() ==> v.deep_view()[j] == v@[j]@,
{
    assert forall|j: int| 0 <= j < v@.len() implies v.deep_view()[j] == v@[j]@ by {
        assert(v.deep_view()[j] == v@[j].deep_view());
        assert(v@[j].deep_view() =~= v@[j]@);
    }
}

} // verus!
