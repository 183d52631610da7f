//! Small tools on byte strings that both codecs share.

use vstd::prelude::*;
use vstd::slice::slice_subrange;
use vstd::utf8::valid_utf8;

verus! {

/// The contents of a list of byte strings.
pub open spec fn blobs(v: Seq<Vec<u8>>) -> Seq<Seq<u8>> {
    v.map_values(|a: Vec<u8>| a@)
}

/// The place of the first `b` in `s`, or the length of `s` where it holds none.
pub open spec fn first_index(s: Seq<u8>, b: u8) -> int
    decreases s.len(),
{
    if s.len() == 0 || s[0] == b {
        0
    } else {
        1 + first_index(s.skip(1), b)
    }
}

/// `first_index` lies within `s`, nothing before it is `b`, and it is either
/// the end or a `b`.
pub proof fn lemma_first_index(s: Seq<u8>, b: u8)
    ensures
        0 <= first_index(s, b) <= s.len(),
        forall|j: int| 0 <= j < first_index(s, b) ==> s[j] != b,
        first_index(s, b) < s.len() ==> s[first_index(s, b)] == b,
    decreases s.len(),
{
    if s.len() == 0 || s[0] == b {
    } else {
        lemma_first_index(s.skip(1), b);
        assert forall|j: int| 0 <= j < first_index(s, b) implies s[j] != b by {
            if j > 0 {
                assert(s.skip(1)[j - 1] == s[j]);
            }
        }
    }
}

/// An index with the three properties of `first_index` is `first_index`.
pub proof fn lemma_first_index_is(s: Seq<u8>, b: u8, k: int)
    requires
        0 <= k <= s.len(),
        forall|j: int| 0 <= j < k ==> s[j] != b,
        k < s.len() ==> s[k] == b,
    ensures
        first_index(s, b) == k,
{
    lemma_first_index(s, b);
    let f = first_index(s, b);
    if f < k {
        assert(s[f] != b);
    } else if k < f {
        assert(s[k] == b);
    }
}

/// Whether `b` occurs in `s`.
pub open spec fn occurs(s: Seq<u8>, b: u8) -> bool {
    exists|j: int| 0 <= j < s.len() && s[j] == b
}

/// Where `b` does not occur, `first_index` is the length.
pub proof fn lemma_first_index_absent(s: Seq<u8>, b: u8)
    requires
        !occurs(s, b),
    ensures
        first_index(s, b) == s.len(),
{
    lemma_first_index(s, b);
}

/// The first `b` of `head + [b] + tail` is at the end of `head`, where `head`
/// holds no `b`.
pub proof fn lemma_first_index_joined(head: Seq<u8>, b: u8, tail: Seq<u8>)
    requires
        !occurs(head, b),
    ensures
        first_index(head + seq![b] + tail, b) == head.len(),
        first_index(head, b) == head.len(),
{
    let s = head + seq![b] + tail;
    assert forall|j: int| 0 <= j < head.len() implies s[j] != b by {
        assert(s[j] == head[j]);
    }
    lemma_first_index_is(s, b, head.len() as int);
    lemma_first_index_absent(head, b);
}

/// Finds the first `b` in `s` at or after `from`; the length where there is none.
pub(crate) fn find(s: &[u8], from: usize, b: u8) -> (k: usize)
    requires
        from <= s@.len(),
    ensures
        k == from + first_index(s@.skip(from as int), b),
        from <= k <= s@.len(),
{
    let n = s.len();
    let mut k = from;
    while k < n && s[k] != b
        invariant
            n == s@.len(),
            from <= k <= n,
            forall|j: int| from <= j < k ==> s@[j] != b,
        decreases n - k,
    {
        k = k + 1;
    }
    proof {
        lemma_first_index_is(s@.skip(from as int), b, k - from);
    }
    k
}

/// Appends the bytes of `s` to `out`.
pub fn append(out: &mut Vec<u8>, s: &[u8])
    ensures
        final(out)@ == old(out)@ + s@,
{
    let n = s.len();
    let mut i: usize = 0;
    while i < n
        invariant
            n == s@.len(),
            i <= n,
            out@ == old(out)@ + s@.take(i as int),
        decreases n - i,
    {
        out.push(s[i]);
        assert(s@.take(i + 1) =~= s@.take(i as int).push(s@[i as int]));
        i = i + 1;
    }
    assert(s@.take(n as int) =~= s@);
}

/// Whether two byte strings are the same.
pub fn same(a: &[u8], b: &[u8]) -> (r: bool)
    ensures
        r == (a@ == b@),
{
    if a.len() != b.len() {
        return false;
    }
    let n = a.len();
    let mut i: usize = 0;
    while i < n
        invariant
            n == a@.len(),
            n == b@.len(),
            i <= n,
            forall|j: int| 0 <= j < i ==> a@[j] == b@[j],
        decreases n - i,
    {
        if a[i] != b[i] {
            return false;
        }
        i = i + 1;
    }
    assert(a@ =~= b@);
    true
}

/// A copy of the bytes of `s` from `from` to `to`.
pub(crate) fn copy_range(s: &[u8], from: usize, to: usize) -> (v: Vec<u8>)
    requires
        from <= to <= s@.len(),
    ensures
        v@ == s@.subrange(from as int, to as int),
{
    let mut v: Vec<u8> = Vec::new();
    append(&mut v, slice_subrange(s, from, to));
    assert(Seq::<u8>::empty() + s@.subrange(from as int, to as int) =~= s@.subrange(
        from as int,
        to as int,
    ));
    v
}

/// Whether `b` is an ASCII digit.
pub open spec fn is_digit(b: u8) -> bool {
    48 <= b <= 57
}

/// The length of the longest prefix of `s` that is made of digits.
pub open spec fn digit_run(s: Seq<u8>) -> int
    decreases s.len(),
{
    if s.len() == 0 || !is_digit(s[0]) {
        0
    } else {
        1 + digit_run(s.skip(1))
    }
}

/// Whether every byte of `s` is a digit.
pub open spec fn all_digits(s: Seq<u8>) -> bool {
    forall|j: int| 0 <= j < s.len() ==> is_digit(#[trigger] s[j])
}

/// The number that the digit string `s` writes.
pub open spec fn number(s: Seq<u8>) -> nat
    decreases s.len(),
{
    if s.len() == 0 {
        0
    } else {
        (number(s.drop_last()) * 10 + (s.last() - 48)) as nat
    }
}

/// The decimal digits of `n`, without leading zeros.
pub open spec fn decimal(n: nat) -> Seq<u8>
    decreases n,
{
    if n < 10 {
        seq![(48 + n) as u8]
    } else {
        decimal(n / 10).push((48 + n % 10) as u8)
    }
}

/// Whether `s` is the decimal form of a number: digits, at least one, and no
/// leading zero but for `0` itself.
pub open spec fn canonical(s: Seq<u8>) -> bool {
    &&& s.len() > 0
    &&& all_digits(s)
    &&& (s.len() == 1 || s[0] != 48)
}

pub proof fn lemma_digit_run(s: Seq<u8>)
    ensures
        0 <= digit_run(s) <= s.len(),
        all_digits(s.take(digit_run(s))),
        digit_run(s) < s.len() ==> !is_digit(s[digit_run(s)]),
    decreases s.len(),
{
    if s.len() == 0 || !is_digit(s[0]) {
    } else {
        lemma_digit_run(s.skip(1));
        let r = digit_run(s);
        assert forall|j: int| 0 <= j < s.take(r).len() implies is_digit(#[trigger] s.take(r)[j]) by {
            if j > 0 {
                assert(s.skip(1).take(r - 1)[j - 1] == s[j]);
            }
        }
    }
}

/// A length with the properties of `digit_run` is `digit_run`.
pub proof fn lemma_digit_run_is(s: Seq<u8>, k: int)
    requires
        0 <= k <= s.len(),
        forall|j: int| 0 <= j < k ==> is_digit(s[j]),
        k < s.len() ==> !is_digit(s[k]),
    ensures
        digit_run(s) == k,
{
    lemma_digit_run(s);
    let r = digit_run(s);
    if r < k {
        assert(is_digit(s[r]));
    } else if k < r {
        assert(s.take(r)[k] == s[k]);
    }
}

/// The number of a prefix is at most the number of the whole.
pub proof fn lemma_number_prefix(s: Seq<u8>, k: int)
    requires
        0 <= k <= s.len(),
        all_digits(s),
    ensures
        number(s.take(k)) <= number(s),
    decreases s.len(),
{
    if k == s.len() {
        assert(s.take(k) =~= s);
    } else {
        assert(is_digit(s.last()));
        assert(all_digits(s.drop_last())) by {
            assert forall|j: int| 0 <= j < s.drop_last().len() implies is_digit(
                #[trigger] s.drop_last()[j],
            ) by {
                assert(s.drop_last()[j] == s[j]);
            }
        }
        lemma_number_prefix(s.drop_last(), k);
        assert(s.drop_last().take(k) =~= s.take(k));
    }
}

/// The decimal form of a number is canonical and writes that number.
pub proof fn lemma_decimal(n: nat)
    ensures
        canonical(decimal(n)),
        number(decimal(n)) == n,
        n >= 1 ==> decimal(n)[0] != 48,
    decreases n,
{
    let d = decimal(n);
    if n < 10 {
        assert(d.drop_last() =~= Seq::<u8>::empty());
        assert(number(d.drop_last()) == 0);
    } else {
        lemma_decimal(n / 10);
        let h = decimal(n / 10);
        assert(d.drop_last() =~= h);
        assert(d[0] == h[0]);
        assert forall|j: int| 0 <= j < d.len() implies is_digit(#[trigger] d[j]) by {
            if j < h.len() {
                assert(d[j] == h[j]);
                assert(is_digit(h[j]));
            }
        }
    }
}

/// A canonical digit string is the decimal form of its number.
pub proof fn lemma_canonical(s: Seq<u8>)
    requires
        canonical(s),
    ensures
        decimal(number(s)) == s,
        s[0] != 48 ==> number(s) >= 1,
    decreases s.len(),
{
    assert(is_digit(s.last()));
    if s.len() == 1 {
        assert(s.drop_last() =~= Seq::<u8>::empty());
        assert(number(s.drop_last()) == 0);
        assert(decimal(number(s)) =~= s);
    } else {
        let h = s.drop_last();
        assert(h[0] == s[0]);
        assert(canonical(h)) by {
            assert forall|j: int| 0 <= j < h.len() implies is_digit(#[trigger] h[j]) by {
                assert(h[j] == s[j]);
            }
        }
        lemma_canonical(h);
        let n = number(s);
        assert(number(h) >= 1);
        assert(n == number(h) * 10 + (s.last() - 48));
        assert(n / 10 == number(h));
        assert(n % 10 == s.last() - 48);
        assert(decimal(n) =~= s);
    }
}

/// In `decimal(n) + rest`, where `rest` does not begin with a digit, the
/// digits in front are those of `n`.
pub proof fn lemma_digit_run_decimal(n: nat, rest: Seq<u8>)
    requires
        rest.len() == 0 || !is_digit(rest[0]),
    ensures
        digit_run(decimal(n) + rest) == decimal(n).len(),
{
    lemma_decimal(n);
    let d = decimal(n);
    let s = d + rest;
    assert forall|j: int| 0 <= j < d.len() implies is_digit(s[j]) by {
        assert(s[j] == d[j]);
        assert(is_digit(d[j]));
    }
    if d.len() < s.len() {
        assert(s[d.len() as int] == rest[0]);
    }
    lemma_digit_run_is(s, d.len() as int);
}

/// Appends the decimal digits of `n` to `out`.
pub fn write_decimal(out: &mut Vec<u8>, n: u32)
    ensures
        final(out)@ == old(out)@ + decimal(n as nat),
    decreases n,
{
    if n >= 10 {
        write_decimal(out, n / 10);
    }
    let ghost before = out@;
    out.push(48 + (n % 10) as u8);
    proof {
        if n >= 10 {
            assert(old(out)@ + decimal(n as nat) =~= before.push((48 + n % 10) as u8));
        } else {
            assert(old(out)@ + decimal(n as nat) =~= before.push((48 + n) as u8));
        }
    }
}

/// The digits at the front of `s` from `from` on.
pub open spec fn digits_at(s: Seq<u8>, from: int) -> Seq<u8> {
    s.subrange(from, from + digit_run(s.skip(from)))
}

/// Reads the decimal number that stands in `s` at `from`: the longest run of
/// digits there. Gives the number and the place after it where the run is a
/// canonical decimal form of a number up to `max`, and `None` otherwise.
pub(crate) fn read_decimal(s: &[u8], from: usize, max: u32) -> (r: Option<(u32, usize)>)
    requires
        from <= s@.len(),
    ensures
        match r {
            Some((v, end)) => {
                &&& canonical(digits_at(s@, from as int))
                &&& number(digits_at(s@, from as int)) == v
                &&& v <= max
                &&& end == from + digit_run(s@.skip(from as int))
            },
            None => !(canonical(digits_at(s@, from as int)) && number(digits_at(s@, from as int))
                <= max),
        },
{
    let n = s.len();
    let ghost rest = s@.skip(from as int);
    let mut i = from;
    let mut v: u32 = 0;
    proof {
        lemma_digit_run(rest);
        assert(s@.subrange(from as int, from as int) =~= Seq::<u8>::empty());
    }
    while i < n && 48 <= s[i] && s[i] <= 57
        invariant
            n == s@.len(),
            from <= i <= n,
            rest == s@.skip(from as int),
            forall|j: int| from <= j < i ==> is_digit(s@[j]),
            v == number(s@.subrange(from as int, i as int)),
            v <= max,
        decreases n - i,
    {
        let d = (s[i] - 48) as u32;
        proof {
            lemma_digit_run(rest);
            let run = digit_run(rest);
            if run <= i - from {
                assert(rest[run] == s@[from + run]);
                assert(false);
            }
            let whole = digits_at(s@, from as int);
            assert(whole =~= rest.take(run));
            let pre = s@.subrange(from as int, i + 1);
            assert(whole.take(i + 1 - from) =~= pre);
            lemma_number_prefix(whole, i + 1 - from);
            assert(pre.drop_last() =~= s@.subrange(from as int, i as int));
            assert(number(pre) == v * 10 + d);
        }
        if d > max {
            return None;
        }
        if v > (max - d) / 10 {
            proof {
                assert(v * 10 + d > max) by (nonlinear_arith)
                    requires
                        v > (max - d) / 10,
                        d <= max,
                        d < 10,
                ;
            }
            return None;
        }
        assert(v * 10 + d <= max) by (nonlinear_arith)
            requires
                v <= (max - d) / 10,
                d <= max,
        ;
        v = v * 10 + d;
        i = i + 1;
    }
    proof {
        assert forall|j: int| 0 <= j < i - from implies is_digit(rest[j]) by {
            assert(rest[j] == s@[from + j]);
        }
        lemma_digit_run_is(rest, i - from);
    }
    if i == from {
        return None;
    }
    if i - from > 1 && s[from] == 48 {
        assert(digits_at(s@, from as int)[0] == 48);
        return None;
    }
    proof {
        let whole = digits_at(s@, from as int);
        assert forall|j: int| 0 <= j < whole.len() implies is_digit(#[trigger] whole[j]) by {
            assert(whole[j] == s@[from + j]);
        }
    }
    Some((v, i))
}

/// An ASCII byte in front of UTF-8 text gives UTF-8 text.
pub proof fn lemma_utf8_after_ascii(b: u8, rest: Seq<u8>)
    requires
        b < 128,
        valid_utf8(rest),
    ensures
        valid_utf8(seq![b] + rest),
{
    let s = seq![b] + rest;
    assert(s[0] == b);
    assert((b & 0x7f) as u32 <= 0x7f) by (bit_vector);
    assert(vstd::utf8::valid_first_scalar(s));
    assert(vstd::utf8::pop_first_scalar(s) =~= rest);
}

/// Text of ASCII bytes is UTF-8.
pub proof fn lemma_ascii_is_utf8(s: Seq<u8>)
    requires
        forall|j: int| 0 <= j < s.len() ==> s[j] < 128,
    ensures
        valid_utf8(s),
    decreases s.len(),
{
    if s.len() > 0 {
        lemma_ascii_is_utf8(s.skip(1));
        lemma_utf8_after_ascii(s[0], s.skip(1));
        assert(seq![s[0]] + s.skip(1) =~= s);
    }
}

/// The decimal form of a number is UTF-8.
pub proof fn lemma_decimal_is_utf8(n: nat)
    ensures
        valid_utf8(decimal(n)),
{
    lemma_decimal(n);
    assert forall|j: int| 0 <= j < decimal(n).len() implies decimal(n)[j] < 128 by {
        assert(is_digit(decimal(n)[j]));
    }
    lemma_ascii_is_utf8(decimal(n));
}

} // verus!
