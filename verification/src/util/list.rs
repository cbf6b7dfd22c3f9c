//! Searching, filtering and copying lists, and decimal numbers.

use vstd::prelude::*;

verus! {

/// The index of the first element that `p` holds of.
pub open spec fn first_index<T>(s: Seq<T>, p: spec_fn(T) -> bool) -> Option<int>
    decreases s.len(),
{
    if s.len() == 0 {
        None
    } else {
        match first_index(s.drop_last(), p) {
            Some(i) => Some(i),
            None => if p(s.last()) {
                Some(s.len() - 1)
            } else {
                None
            },
        }
    }
}

/// The first index is the least one that `p` holds at.
pub proof fn lemma_first_index<T>(s: Seq<T>, p: spec_fn(T) -> bool)
    ensures
        first_index(s, p) matches Some(i) ==> 0 <= i < s.len() && p(s[i]) && forall|j: int|
            0 <= j < i ==> !p(#[trigger] s[j]),
        first_index(s, p) is None ==> forall|j: int| 0 <= j < s.len() ==> !p(#[trigger] s[j]),
    decreases s.len(),
{
    if s.len() > 0 {
        lemma_first_index(s.drop_last(), p);
        assert(forall|j: int| 0 <= j < s.len() - 1 ==> s.drop_last()[j] == s[j]);
    }
}

/// An index that is the least one that `p` holds at is the first index.
pub proof fn lemma_first_index_is<T>(s: Seq<T>, p: spec_fn(T) -> bool, i: int)
    requires
        0 <= i < s.len(),
        p(s[i]),
        forall|j: int| 0 <= j < i ==> !p(#[trigger] s[j]),
    ensures
        first_index(s, p) == Some(i),
{
    lemma_first_index(s, p);
    match first_index(s, p) {
        Some(k) => {
            if k < i {
                assert(!p(s[k]));
            }
            if i < k {
                assert(!p(s[i]));
            }
        },
        None => {
            assert(!p(s[i]));
        },
    }
}

/// No element that `p` holds of: there is no first index.
pub proof fn lemma_first_index_none<T>(s: Seq<T>, p: spec_fn(T) -> bool)
    requires
        forall|j: int| 0 <= j < s.len() ==> !p(#[trigger] s[j]),
    ensures
        first_index(s, p) is None,
{
    lemma_first_index(s, p);
    if let Some(i) = first_index(s, p) {
        assert(!p(s[i]));
    }
}

/// The elements that are marked in `keep`, in their order.
pub open spec fn kept<T>(s: Seq<T>, keep: Seq<bool>) -> Seq<T>
    decreases s.len(),
{
    if s.len() == 0 {
        Seq::empty()
    } else {
        let rest = kept(s.drop_last(), keep);
        if keep[s.len() - 1] {
            rest.push(s.last())
        } else {
            rest
        }
    }
}

/// The elements that `p` holds of, in their order.
pub open spec fn only<T>(s: Seq<T>, p: spec_fn(T) -> bool) -> Seq<T>
    decreases s.len(),
{
    if s.len() == 0 {
        Seq::empty()
    } else {
        let rest = only(s.drop_last(), p);
        if p(s.last()) {
            rest.push(s.last())
        } else {
            rest
        }
    }
}

/// What is left of a list is what was in it and `p` holds of.
pub proof fn lemma_only_holds<T>(s: Seq<T>, p: spec_fn(T) -> bool)
    ensures
        only(s, p).len() <= s.len(),
        forall|x: T| #[trigger] only(s, p).contains(x) <==> s.contains(x) && p(x),
    decreases s.len(),
{
    if s.len() > 0 {
        let rest = s.drop_last();
        lemma_only_holds(rest, p);
        assert forall|x: T| #[trigger] only(s, p).contains(x) <==> s.contains(x) && p(x) by {
            assert(s.contains(x) <==> rest.contains(x) || x == s.last()) by {
                assert(s =~= rest.push(s.last()));
                if rest.contains(x) {
                    let i = rest.index_of(x);
                    assert(s[i] == x);
                }
                if x == s.last() {
                    assert(s[s.len() - 1] == x);
                }
            }
            let o = only(rest, p);
            if p(s.last()) {
                assert(o.push(s.last()).contains(x) <==> o.contains(x) || x == s.last()) by {
                    if o.contains(x) {
                        let i = o.index_of(x);
                        assert(o.push(s.last())[i] == x);
                    }
                    if x == s.last() {
                        assert(o.push(s.last())[o.len() as int] == x);
                    }
                }
            }
        }
    }
}

/// The elements at each place of what is left are in the list and `p` holds of
/// them.
pub proof fn lemma_only_elements<T>(s: Seq<T>, p: spec_fn(T) -> bool)
    ensures
        forall|i: int| 0 <= i < only(s, p).len() ==> p(#[trigger] only(s, p)[i]) && s.contains(only(s, p)[i]),
{
    lemma_only_holds(s, p);
    assert forall|i: int| 0 <= i < only(s, p).len() implies p(#[trigger] only(s, p)[i]) && s.contains(
        only(s, p)[i],
    ) by {
        assert(only(s, p).contains(only(s, p)[i]));
    }
}

/// Marks that say what `p` says keep what `p` holds of, also of the elements'
/// images.
pub proof fn lemma_kept_is_only<T, U>(s: Seq<T>, f: spec_fn(T) -> U, keep: Seq<bool>, p: spec_fn(U) -> bool)
    requires
        s.len() == keep.len(),
        forall|i: int| 0 <= i < s.len() ==> #[trigger] keep[i] == p(f(s[i])),
    ensures
        kept(s, keep).map_values(f) == only(s.map_values(f), p),
    decreases s.len(),
{
    let t = s.map_values(f);
    if s.len() > 0 {
        let n = s.len() - 1;
        lemma_kept_prefix(s.drop_last(), keep, keep.take(n));
        assert forall|i: int| 0 <= i < n implies #[trigger] keep.take(n)[i] == p(f(s.drop_last()[i])) by {
            assert(keep[i] == p(f(s[i])));
        }
        lemma_kept_is_only(s.drop_last(), f, keep.take(n), p);
        assert(s.drop_last().map_values(f) =~= t.drop_last());
        assert(keep[n] == p(f(s[n])));
        assert(t.last() == f(s.last()));
        if keep[n] {
            assert(kept(s, keep).map_values(f) =~= kept(s.drop_last(), keep).map_values(f).push(f(s.last())));
        }
    } else {
        assert(kept(s, keep).map_values(f) =~= Seq::empty());
    }
}

/// Only the marks of the list's own places matter.
pub proof fn lemma_kept_prefix<T>(s: Seq<T>, a: Seq<bool>, b: Seq<bool>)
    requires
        s.len() <= a.len(),
        s.len() <= b.len(),
        forall|i: int| 0 <= i < s.len() ==> a[i] == b[i],
    ensures
        kept(s, a) == kept(s, b),
    decreases s.len(),
{
    if s.len() > 0 {
        lemma_kept_prefix(s.drop_last(), a, b);
    }
}

/// Keeps the elements that are marked and drops the others.
pub fn retain<T>(v: &mut Vec<T>, keep: &Vec<bool>)
    requires
        old(v)@.len() == keep@.len(),
    ensures
        final(v)@ == kept(old(v)@, keep@),
{
    let ghost s = v@;
    let mut i: usize = 0;
    let mut k: usize = 0;
    let n: usize = keep.len();
    assert(s.skip(0) =~= s);
    assert(kept(s.take(0), keep@) + s.skip(0) =~= s);
    while k < n
        invariant
            k <= n,
            n == keep@.len(),
            s.len() == n,
            i <= k,
            i == kept(s.take(k as int), keep@).len(),
            v@ == kept(s.take(k as int), keep@) + s.skip(k as int),
        decreases n - k,
    {
        assert(s.take(k as int + 1).drop_last() =~= s.take(k as int));
        assert(s.take(k as int + 1).last() == s[k as int]);
        assert(v@[i as int] == s[k as int]);
        if keep[k] {
            assert(kept(s.take(k as int), keep@) + s.skip(k as int) =~= kept(s.take(k as int + 1), keep@) + s.skip(
                k as int + 1,
            ));
            i += 1;
        } else {
            v.remove(i);
            assert(v@ =~= kept(s.take(k as int), keep@) + s.skip(k as int + 1));
        }
        k += 1;
    }
    assert(s.take(k as int) =~= s);
    assert(kept(s, keep@) + s.skip(k as int) =~= kept(s, keep@));
}

/// The marks the other way round.
pub open spec fn flipped(marks: Seq<bool>) -> Seq<bool> {
    marks.map_values(|b: bool| !b)
}

/// Takes the marked elements out, in their order.
pub fn take_marked<T>(v: &mut Vec<T>, marks: &Vec<bool>) -> (out: Vec<T>)
    requires
        old(v)@.len() == marks@.len(),
    ensures
        out@ == kept(old(v)@, marks@),
        final(v)@ == kept(old(v)@, flipped(marks@)),
{
    let ghost s = v@;
    let ghost keep = flipped(marks@);
    let mut out: Vec<T> = Vec::new();
    let mut i: usize = 0;
    let mut k: usize = 0;
    let n: usize = marks.len();
    assert(kept(s.take(0), keep) + s.skip(0) =~= s);
    while k < n
        invariant
            k <= n,
            n == marks@.len(),
            s.len() == n,
            keep == flipped(marks@),
            i <= k,
            i == kept(s.take(k as int), keep).len(),
            out@ == kept(s.take(k as int), marks@),
            v@ == kept(s.take(k as int), keep) + s.skip(k as int),
        decreases n - k,
    {
        assert(s.take(k as int + 1).drop_last() =~= s.take(k as int));
        assert(s.take(k as int + 1).last() == s[k as int]);
        assert(v@[i as int] == s[k as int]);
        if marks[k] {
            let x = v.remove(i);
            out.push(x);
            assert(v@ =~= kept(s.take(k as int), keep) + s.skip(k as int + 1));
        } else {
            assert(kept(s.take(k as int), keep) + s.skip(k as int) =~= kept(s.take(k as int + 1), keep) + s.skip(
                k as int + 1,
            ));
            i += 1;
        }
        k += 1;
    }
    assert(s.take(k as int) =~= s);
    assert(kept(s, keep) + s.skip(k as int) =~= kept(s, keep));
    out
}

/// Whether the list holds `x`.
pub fn holds(v: &Vec<u32>, x: u32) -> (b: bool)
    ensures
        b == v@.contains(x),
{
    let mut i: usize = 0;
    while i < v.len()
        invariant
            i <= v.len(),
            forall|j: int| 0 <= j < i ==> v@[j] != x,
        decreases v.len() - i,
    {
        if v[i] == x {
            assert(v@[i as int] == x);
            return true;
        }
        i += 1;
    }
    false
}

/// What is not in the list.
pub open spec fn is_not_in(s: Seq<u32>) -> spec_fn(u32) -> bool {
    |y: u32| !s.contains(y)
}

/// Drops every element that is in `gone`.
pub fn drop_all(v: &mut Vec<u32>, gone: &Vec<u32>)
    ensures
        final(v)@ == only(old(v)@, is_not_in(gone@)),
{
    let mut keep: Vec<bool> = Vec::new();
    let mut i: usize = 0;
    while i < v.len()
        invariant
            i <= v.len(),
            keep@.len() == i,
            forall|j: int| 0 <= j < i ==> #[trigger] keep@[j] == !gone@.contains(v@[j]),
        decreases v.len() - i,
    {
        keep.push(!holds(gone, v[i]));
        i += 1;
    }
    let ghost s = v@;
    let ghost id = |x: u32| x;
    retain(v, &keep);
    proof {
        lemma_kept_is_only(s, id, keep@, is_not_in(gone@));
        assert(kept(s, keep@).map_values(id) =~= kept(s, keep@));
        assert(s.map_values(id) =~= s);
    }
}

/// Whether two byte strings are the same.
pub fn same_bytes(a: &[u8], b: &[u8]) -> (r: bool)
    ensures
        r == (a@ == b@),
{
    if a.len() != b.len() {
        return false;
    }
    let mut i: usize = 0;
    while i < a.len()
        invariant
            i <= a.len(),
            a.len() == b.len(),
            forall|j: int| 0 <= j < i ==> a@[j] == b@[j],
        decreases a.len() - i,
    {
        if a[i] != b[i] {
            return false;
        }
        i += 1;
    }
    assert(a@ =~= b@);
    true
}

/// A copy of the bytes.
pub fn copy_bytes(a: &[u8]) -> (v: Vec<u8>)
    ensures
        v@ == a@,
{
    let mut v: Vec<u8> = Vec::with_capacity(a.len());
    append_bytes(&mut v, a);
    v
}

/// The bytes from `from` up to `to`.
pub fn copy_range(a: &[u8], from: usize, to: usize) -> (v: Vec<u8>)
    requires
        from <= to <= a@.len(),
    ensures
        v@ == a@.subrange(from as int, to as int),
{
    let mut v: Vec<u8> = Vec::with_capacity(to - from);
    let mut i: usize = from;
    while i < to
        invariant
            from <= i <= to <= a@.len(),
            v@ == a@.subrange(from as int, i as int),
        decreases to - i,
    {
        v.push(a[i]);
        i += 1;
    }
    v
}

/// Appends the bytes.
pub fn append_bytes(v: &mut Vec<u8>, a: &[u8])
    ensures
        final(v)@ == old(v)@ + a@,
{
    let ghost v0 = v@;
    let mut i: usize = 0;
    while i < a.len()
        invariant
            i <= a.len(),
            v@ == v0 + a@.take(i as int),
        decreases a.len() - i,
    {
        v.push(a[i]);
        assert(a@.take(i as int).push(a@[i as int]) =~= a@.take(i as int + 1));
        i += 1;
    }
    assert(a@.take(i as int) =~= a@);
}

/// A copy of the numbers.
pub fn copy_u32s(a: &Vec<u32>) -> (v: Vec<u32>)
    ensures
        v@ == a@,
{
    let mut v: Vec<u32> = Vec::new();
    let mut i: usize = 0;
    while i < a.len()
        invariant
            i <= a.len(),
            v@ == a@.take(i as int),
        decreases a.len() - i,
    {
        v.push(a[i]);
        assert(a@.take(i as int).push(a@[i as int]) =~= a@.take(i as int + 1));
        i += 1;
    }
    assert(a@.take(i as int) =~= a@);
    v
}

/// What each of the strings says.
pub open spec fn texts(s: Seq<String>) -> Seq<Seq<char>> {
    s.map_values(|x: String| x@)
}

/// A copy of the strings.
pub fn copy_strings(a: &Vec<String>) -> (v: Vec<String>)
    ensures
        texts(v@) == texts(a@),
{
    let mut v: Vec<String> = Vec::new();
    let mut i: usize = 0;
    while i < a.len()
        invariant
            i <= a.len(),
            v@.len() == i,
            forall|j: int| 0 <= j < i ==> (#[trigger] v@[j])@ == a@[j]@,
        decreases a.len() - i,
    {
        v.push(a[i].clone());
        i += 1;
    }
    assert(texts(v@) =~= texts(a@));
    v
}

/// The decimal digits of a number, as ASCII.
pub open spec fn decimal(n: nat) -> Seq<u8>
    decreases n,
{
    if n < 10 {
        seq![(48 + n) as u8]
    } else {
        decimal(n / 10).push((48 + n % 10) as u8)
    }
}

/// Appends the decimal digits of `n`.
pub fn push_decimal(v: &mut Vec<u8>, n: u64)
    ensures
        final(v)@ == old(v)@ + decimal(n as nat),
    decreases n,
{
    let ghost v0 = v@;
    if n < 10 {
        v.push(48 + n as u8);
        assert(v@ =~= v0 + seq![(48 + n) as u8]);
    } else {
        push_decimal(v, n / 10);
        v.push(48 + (n % 10) as u8);
        assert(v@ =~= v0 + decimal(n as nat));
    }
}

/// The characters of a text.
pub fn chars(s: &str) -> (v: Vec<char>)
    ensures
        v@ == s@,
{
    let mut v: Vec<char> = Vec::new();
    for c in it: s.chars()
        invariant
            it.seq() == s@,
            v@.len() == it.index(),
            forall|j: int| 0 <= j < v@.len() ==> #[trigger] v@[j] == s@[j],
    {
        v.push(c);
    }
    assert(v@ =~= s@);
    v
}

/// The value of decimal digits.
pub open spec fn digits_value(s: Seq<char>) -> int
    decreases s.len(),
{
    if s.len() == 0 {
        0
    } else {
        digits_value(s.drop_last()) * 10 + (s.last() as u32 - 48)
    }
}

/// One or more decimal digits.
pub open spec fn is_digits(s: Seq<char>) -> bool {
    s.len() > 0 && forall|i: int| 0 <= i < s.len() ==> 48 <= (#[trigger] s[i]) as u32 <= 57
}

/// A number as a text: digits, with or without a plus sign before them.
pub open spec fn number_digits(s: Seq<char>) -> Seq<char> {
    if s.len() > 0 && s[0] == '+' {
        s.skip(1)
    } else {
        s
    }
}

/// What a text says as a number of at most `max`.
pub open spec fn number_of(s: Seq<char>, max: int) -> Option<int> {
    let d = number_digits(s);
    if is_digits(d) && digits_value(d) <= max {
        Some(digits_value(d))
    } else {
        None
    }
}

proof fn lemma_digits_grow(s: Seq<char>, k: int)
    requires
        is_digits(s),
        0 <= k <= s.len(),
    ensures
        0 <= digits_value(s.take(k)) <= digits_value(s),
    decreases s.len() - k,
{
    if k == s.len() {
        assert(s.take(k) =~= s);
        lemma_digits_nonneg(s);
    } else {
        assert(s.take(k + 1).drop_last() =~= s.take(k));
        assert(s.take(k + 1).last() == s[k]);
        lemma_digits_grow(s, k + 1);
        lemma_digits_nonneg(s.take(k));
    }
}

proof fn lemma_digits_nonneg(s: Seq<char>)
    requires
        forall|i: int| 0 <= i < s.len() ==> 48 <= (#[trigger] s[i]) as u32 <= 57,
    ensures
        0 <= digits_value(s),
    decreases s.len(),
{
    if s.len() > 0 {
        lemma_digits_nonneg(s.drop_last());
    }
}

/// Reads the number in `v[from..to]`, `None` if it is none or more than `max`.
pub fn number(v: &Vec<char>, from: usize, to: usize, max: u32) -> (r: Option<u32>)
    requires
        from <= to <= v@.len(),
    ensures
        r is Some == number_of(v@.subrange(from as int, to as int), max as int) is Some,
        r matches Some(n) ==> Some(n as int) == number_of(v@.subrange(from as int, to as int), max as int),
{
    let ghost s = v@.subrange(from as int, to as int);
    let start: usize = if from < to && v[from] == '+' { from + 1 } else { from };
    let ghost d = number_digits(s);
    assert(d =~= v@.subrange(start as int, to as int));
    if start == to {
        return None;
    }
    let mut n: u64 = 0;
    let mut i: usize = start;
    assert(d.take(0) =~= Seq::empty());
    while i < to
        invariant
            start <= i <= to,
            start < to <= v@.len(),
            d == v@.subrange(start as int, to as int),
            d == number_digits(s),
            s == v@.subrange(from as int, to as int),
            n == digits_value(d.take(i - start)),
            n <= max,
            forall|j: int| 0 <= j < i - start ==> 48 <= (#[trigger] d[j]) as u32 <= 57,
        decreases to - i,
    {
        let c: u32 = v[i] as u32;
        assert(d[i - start] == v@[i as int]);
        if c < 48 || c > 57 {
            return None;
        }
        assert(d.take(i - start + 1).drop_last() =~= d.take(i - start));
        assert(d.take(i - start + 1).last() == d[i - start]);
        n = n * 10 + (c - 48) as u64;
        if n > max as u64 {
            proof {
                if is_digits(d) {
                    lemma_digits_grow(d, i - start + 1);
                }
            }
            return None;
        }
        i += 1;
    }
    assert(d.take(to - start) =~= d);
    Some(n as u32)
}

/// A number that is written in decimal is read back as it was, with or without a plus
/// sign before it, where it is not too large.
pub proof fn law_decimals_read_back(n: nat, max: int)
    requires
        n <= max,
    ensures
        number_of(decimal(n).map_values(|b: u8| b as char), max) == Some(n as int),
        number_of(seq!['+'] + decimal(n).map_values(|b: u8| b as char), max) == Some(n as int),
{
    let s = decimal(n).map_values(|b: u8| b as char);
    lemma_decimal_digits(n);
    assert(s[0] != '+');
    let t = seq!['+'] + s;
    assert(t.skip(1) =~= s);
}

/// What is more than the most that is allowed is no number, and neither is a text that
/// has anything but digits behind its sign.
pub proof fn law_only_digits_are_numbers(n: nat, max: int, s: Seq<char>, i: int)
    requires
        n > max,
        1 <= i < s.len(),
        !('0' as u32 <= s[i] as u32 <= '9' as u32),
    ensures
        number_of(decimal(n).map_values(|b: u8| b as char), max) is None,
        number_of(s, max) is None,
        number_of(Seq::empty(), max) is None,
{
    let d = decimal(n).map_values(|b: u8| b as char);
    lemma_decimal_digits(n);
    assert(d[0] != '+');
    if s[0] == '+' {
        assert(s.skip(1)[i - 1] == s[i]);
    }
}

/// A number in decimal is its digits.
pub proof fn lemma_decimal_digits(n: nat)
    ensures
        is_digits(decimal(n).map_values(|b: u8| b as char)),
        digits_value(decimal(n).map_values(|b: u8| b as char)) == n,
    decreases n,
{
    let s = decimal(n).map_values(|b: u8| b as char);
    if n < 10 {
        assert(s.drop_last() =~= Seq::empty());
        assert(s.last() == ((48 + n) as u8) as char);
        assert(digits_value(s.drop_last()) == 0);
        assert(s.last() as u32 == 48 + n);
    } else {
        lemma_decimal_digits(n / 10);
        let r = decimal(n / 10).map_values(|b: u8| b as char);
        assert(s.drop_last() =~= r);
        assert(s.last() == ((48 + n % 10) as u8) as char);
        assert(s.last() as u32 == 48 + n % 10);
        assert forall|i: int| 0 <= i < s.len() implies 48 <= (#[trigger] s[i]) as u32 <= 57 by {
            if i < r.len() {
                assert(s[i] == r[i]);
            }
        }
    }
}

} // verus!
