//! Byte-sequence scanning: pattern search, splitting on a separator,
//! and unsigned decimal numerals, each with an exact specification.

use vstd::prelude::*;

verus! {

/// The pattern `pat` occurs in `s` at position `i`.
pub open spec fn match_at(s: Seq<u8>, pat: Seq<u8>, i: int) -> bool {
    0 <= i && i + pat.len() <= s.len() && s.subrange(i, i + pat.len() as int) == pat
}

/// The first position at or after `from` where `pat` occurs in `s`.
/// An empty pattern or a negative `from` counts as no match.
pub open spec fn first_match_from(s: Seq<u8>, pat: Seq<u8>, from: int) -> Option<int>
    decreases s.len() - from,
{
    if pat.len() == 0 || from < 0 || from + pat.len() > s.len() {
        None
    } else if match_at(s, pat, from) {
        Some(from)
    } else {
        first_match_from(s, pat, from + 1)
    }
}

/// `first_match_from` returns the first match and nothing earlier.
pub proof fn lemma_first_match_from(s: Seq<u8>, pat: Seq<u8>, from: int)
    requires
        1 <= pat.len(),
        0 <= from,
    ensures
        match first_match_from(s, pat, from) {
            Some(k) => from <= k && match_at(s, pat, k) && forall|j: int|
                from <= j < k ==> !match_at(s, pat, j),
            None => forall|j: int| from <= j ==> !match_at(s, pat, j),
        },
    decreases s.len() - from,
{
    if from + pat.len() > s.len() {
    } else if match_at(s, pat, from) {
    } else {
        lemma_first_match_from(s, pat, from + 1);
    }
}

/// A match is exactly bytewise agreement with the pattern.
pub proof fn lemma_match_at_iff(s: Seq<u8>, pat: Seq<u8>, i: int)
    ensures
        match_at(s, pat, i) <==> (0 <= i && i + pat.len() <= s.len() && forall|t: int|
            0 <= t < pat.len() ==> s[i + t] == pat[t]),
{
    if 0 <= i && i + pat.len() <= s.len() {
        if forall|t: int| 0 <= t < pat.len() ==> s[i + t] == pat[t] {
            assert(s.subrange(i, i + pat.len() as int) =~= pat);
        }
        if match_at(s, pat, i) {
            assert forall|t: int| 0 <= t < pat.len() implies s[i + t] == pat[t] by {
                assert(s.subrange(i, i + pat.len() as int)[t] == pat[t]);
            }
        }
    }
}

/// A match found at `at`, with none earlier, is the first match.
pub proof fn lemma_first_match_found(s: Seq<u8>, pat: Seq<u8>, from: int, at: int)
    requires
        1 <= pat.len(),
        0 <= from <= at,
        match_at(s, pat, at),
        forall|j: int| from <= j < at ==> !match_at(s, pat, j),
    ensures
        first_match_from(s, pat, from) == Some(at),
{
    lemma_first_match_from(s, pat, from);
    if first_match_from(s, pat, from) is None {
        assert(!match_at(s, pat, at));
    }
}

/// Whether `pat` occurs in `s` at position `i`.
fn is_match_at(s: &[u8], pat: &[u8], i: usize) -> (b: bool)
    requires
        i + pat@.len() <= s@.len(),
    ensures
        b == match_at(s@, pat@, i as int),
{
    let n = pat.len();
    let slen = s.len();
    let mut j: usize = 0;
    while j < n
        invariant
            n == pat@.len(),
            slen == s@.len(),
            i + n <= s@.len(),
            j <= n,
            forall|t: int| 0 <= t < j ==> s@[i + t] == pat@[t],
        decreases n - j,
    {
        if s[i + j] != pat[j] {
            assert(!match_at(s@, pat@, i as int)) by {
                if s@.subrange(i as int, i + pat@.len() as int) == pat@ {
                    assert(s@.subrange(i as int, i + pat@.len() as int)[j as int] == pat@[j as int]);
                }
            }
            return false;
        }
        j += 1;
    }
    assert(s@.subrange(i as int, i + pat@.len() as int) =~= pat@);
    true
}

/// The first occurrence of `pat` in `s` at or after position `from`.
pub fn find(s: &[u8], pat: &[u8], from: usize) -> (r: Option<usize>)
    requires
        1 <= pat@.len(),
    ensures
        match r {
            Some(k) => first_match_from(s@, pat@, from as int) == Some(k as int),
            None => first_match_from(s@, pat@, from as int) is None,
        },
{
    proof {
        lemma_first_match_from(s@, pat@, from as int);
    }
    if s.len() < pat.len() {
        return None;
    }
    let slen = s.len();
    let last = slen - pat.len();
    let mut i: usize = from;
    while i <= last
        invariant
            1 <= pat@.len() <= s@.len(),
            slen == s@.len(),
            last == s@.len() - pat@.len(),
            from <= i,
            forall|j: int| from <= j < i ==> !match_at(s@, pat@, j),
        decreases last - i + 1,
    {
        if is_match_at(s, pat, i) {
            proof {
                lemma_first_match_found(s@, pat@, from as int, i as int);
            }
            return Some(i);
        }
        i += 1;
    }
    None
}

/// A copy of `s[i..j]`.
pub fn subvec(s: &[u8], i: usize, j: usize) -> (r: Vec<u8>)
    requires
        i <= j && j <= s@.len(),
    ensures
        r@ == s@.subrange(i as int, j as int),
{
    let mut r: Vec<u8> = Vec::new();
    let mut k: usize = i;
    while k < j
        invariant
            i <= k <= j <= s@.len(),
            r@ == s@.subrange(i as int, k as int),
        decreases j - k,
    {
        r.push(s[k]);
        proof {
            assert(r@ =~= s@.subrange(i as int, (k + 1) as int));
        }
        k += 1;
    }
    r
}

/// A copy of the whole of `s`.
pub fn copy_bytes(s: &[u8]) -> (r: Vec<u8>)
    ensures
        r@ == s@,
{
    let r = subvec(s, 0, s.len());
    proof {
        assert(s@.subrange(0, s@.len() as int) =~= s@);
    }
    r
}

/// Whether `a` and `b` hold the same bytes.
pub fn bytes_eq(a: &[u8], b: &[u8]) -> (r: bool)
    ensures
        r <==> a@ == b@,
{
    if a.len() != b.len() {
        return false;
    }
    let n = a.len();
    let mut i: usize = 0;
    while i < n
        invariant
            n == a@.len() == b@.len(),
            i <= n,
            forall|t: int| 0 <= t < i ==> a@[t] == b@[t],
        decreases n - i,
    {
        if a[i] != b[i] {
            return false;
        }
        i += 1;
    }
    assert(a@ =~= b@);
    true
}

/// Whether `s` begins with the bytes of `pre`.
pub open spec fn spec_has_prefix(s: Seq<u8>, pre: Seq<u8>) -> bool {
    pre.len() <= s.len() && s.subrange(0, pre.len() as int) == pre
}

/// Whether `s` begins with the bytes of `pre`.
pub fn has_prefix(s: &[u8], pre: &[u8]) -> (r: bool)
    ensures
        r == spec_has_prefix(s@, pre@),
{
    if s.len() < pre.len() {
        return false;
    }
    is_match_at(s, pre, 0)
}

/// `s` split on the nonempty separator `sep`: the pieces between the
/// occurrences of `sep`, in order.  A sequence with no occurrence is a
/// single piece; a separator at the edge yields an empty piece there.
pub open spec fn spec_split(s: Seq<u8>, sep: Seq<u8>) -> Seq<Seq<u8>>
    decreases s.len(),
    via spec_split_decreases
{
    match first_match_from(s, sep, 0) {
        None => seq![s],
        Some(i) => seq![s.subrange(0, i)] + spec_split(
            s.subrange(i + sep.len() as int, s.len() as int),
            sep,
        ),
    }
}

#[via_fn]
proof fn spec_split_decreases(s: Seq<u8>, sep: Seq<u8>) {
    if 1 <= sep.len() {
        lemma_first_match_from(s, sep, 0);
    }
}

/// The bounds of a first match, made available without unfolding.
pub proof fn lemma_first_match_bounds(s: Seq<u8>, sep: Seq<u8>, i: int)
    requires
        1 <= sep.len(),
        first_match_from(s, sep, 0) == Some(i),
    ensures
        0 <= i,
        i + sep.len() <= s.len(),
{
    lemma_first_match_from(s, sep, 0);
}

/// `s` split on the separator `sep`, as a vector of copied pieces.
pub fn split(s: &[u8], sep: &[u8]) -> (r: Vec<Vec<u8>>)
    requires
        1 <= sep@.len(),
    ensures
        r.deep_view() == spec_split(s@, sep@),
{
    let mut r: Vec<Vec<u8>> = Vec::new();
    let mut rest: Vec<u8> = subvec(s, 0, s.len());
    proof {
        assert(s@.subrange(0, s@.len() as int) =~= s@);
    }
    loop
        invariant
            1 <= sep@.len(),
            spec_split(s@, sep@) == r.deep_view() + spec_split(rest@, sep@),
        decreases rest@.len(),
    {
        match find(rest.as_slice(), sep, 0) {
            Some(i) => {
                proof {
                    lemma_first_match_bounds(rest@, sep@, i as int);
                }
                let rl = rest.len();
                let piece = subvec(rest.as_slice(), 0, i);
                let tail = subvec(rest.as_slice(), i + sep.len(), rl);
                let ghost old_r = r.deep_view();
                let ghost old_rest = rest@;
                r.push(piece);
                rest = tail;
                proof {
                    assert(r.deep_view() =~~= old_r + seq![old_rest.subrange(0, i as int)]);
                    assert(spec_split(s@, sep@) == r.deep_view() + spec_split(rest@, sep@)) by {
                        assert(spec_split(old_rest, sep@) == seq![
                            old_rest.subrange(0, i as int),
                        ] + spec_split(rest@, sep@));
                        assert((r.deep_view() + spec_split(rest@, sep@)) =~= (old_r + spec_split(
                            old_rest,
                            sep@,
                        )));
                    }
                }
            },
            None => {
                let ghost old_r = r.deep_view();
                let ghost old_rest = rest@;
                r.push(rest);
                proof {
                    assert(r.deep_view() =~~= old_r + seq![old_rest]);
                    assert(spec_split(old_rest, sep@) == seq![old_rest]);
                    assert(r.deep_view() =~= old_r + spec_split(old_rest, sep@));
                }
                return r;
            },
        }
    }
}

/// Appends the bytes of `src` to `dst`.
pub fn append_bytes(dst: &mut Vec<u8>, src: &[u8])
    ensures
        final(dst)@ == old(dst)@ + src@,
{
    let n = src.len();
    let mut i: usize = 0;
    proof {
        assert(dst@ + src@.subrange(0, 0) =~= dst@);
    }
    while i < n
        invariant
            n == src@.len(),
            i <= n,
            dst@ == old(dst)@ + src@.subrange(0, i as int),
        decreases n - i,
    {
        dst.push(src[i]);
        proof {
            assert(old(dst)@ + src@.subrange(0, i + 1) =~= (old(dst)@ + src@.subrange(
                0,
                i as int,
            )).push(src@[i as int]));
        }
        i += 1;
    }
    proof {
        assert(src@.subrange(0, n as int) =~= src@);
    }
}

/// An ASCII decimal digit.
pub open spec fn is_digit(b: u8) -> bool {
    48 <= b <= 57
}

/// A nonempty, all-digit byte sequence: the shape of a decimal numeral.
pub open spec fn is_numeral(s: Seq<u8>) -> bool {
    1 <= s.len() && forall|i: int| 0 <= i < s.len() ==> is_digit(s[i])
}

/// The value of a decimal numeral, most significant digit first.
pub open spec fn numeral_val(s: Seq<u8>) -> nat
    decreases s.len(),
{
    if s.len() == 0 {
        0
    } else {
        (10 * numeral_val(s.drop_last()) + (s.last() - 48)) as nat
    }
}

/// The decimal numeral of `n`, without leading zeros.
pub open spec fn numeral_of(n: nat) -> Seq<u8>
    decreases n,
{
    if n < 10 {
        seq![(48 + n) as u8]
    } else {
        numeral_of(n / 10).push((48 + n % 10) as u8)
    }
}

/// Reading back the numeral of `n` gives `n`.
pub proof fn lemma_numeral_round_trip(n: nat)
    ensures
        is_numeral(numeral_of(n)),
        numeral_val(numeral_of(n)) == n,
    decreases n,
{
    if n < 10 {
        assert(numeral_of(n).drop_last() =~= Seq::<u8>::empty());
        assert(numeral_val(Seq::<u8>::empty()) == 0);
    } else {
        lemma_numeral_round_trip(n / 10);
        assert(numeral_of(n).drop_last() =~= numeral_of(n / 10));
        assert forall|i: int| 0 <= i < numeral_of(n).len() implies is_digit(numeral_of(n)[i]) by {
            if i < numeral_of(n).len() - 1 {
                assert(numeral_of(n)[i] == numeral_of(n / 10)[i]);
            }
        }
    }
}

/// The decimal numeral of `n`, as bytes.
pub fn numeral_bytes(n: u64) -> (r: Vec<u8>)
    ensures
        r@ == numeral_of(n as nat),
    decreases n,
{
    if n < 10 {
        let mut r: Vec<u8> = Vec::new();
        r.push(48 + n as u8);
        proof {
            assert(r@ =~= numeral_of(n as nat));
        }
        r
    } else {
        let mut r = numeral_bytes(n / 10);
        r.push(48 + (n % 10) as u8);
        r
    }
}

/// Growing a numeral prefix never shrinks its value.
proof fn lemma_numeral_prefix_le(s: Seq<u8>, i: int)
    requires
        0 <= i <= s.len(),
        forall|j: int| 0 <= j < s.len() ==> is_digit(s[j]),
    ensures
        numeral_val(s.subrange(0, i)) <= numeral_val(s),
    decreases s.len() - i,
{
    if i == s.len() {
        assert(s.subrange(0, i) =~= s);
    } else {
        lemma_numeral_prefix_le(s, i + 1);
        let shorter = s.subrange(0, i);
        let longer = s.subrange(0, i + 1);
        assert(longer.drop_last() =~= shorter);
        assert(numeral_val(longer) == (10 * numeral_val(shorter) + (s[i] - 48)) as nat);
    }
}

/// The result of reading a decimal numeral.
pub enum NumeralRead {
    /// The bytes are not a numeral.
    NotNumeral,
    /// The value, which fits in `usize`.
    Value(usize),
    /// The bytes are a numeral whose value exceeds `usize`.
    Overflow,
}

/// Reads `s` as a decimal numeral.
pub fn read_numeral(s: &[u8]) -> (r: NumeralRead)
    ensures
        match r {
            NumeralRead::NotNumeral => !is_numeral(s@),
            NumeralRead::Value(n) => is_numeral(s@) && n == numeral_val(s@),
            NumeralRead::Overflow => is_numeral(s@) && numeral_val(s@) > usize::MAX,
        },
{
    let n = s.len();
    if n == 0 {
        return NumeralRead::NotNumeral;
    }
    let mut i: usize = 0;
    while i < n
        invariant
            n == s@.len(),
            i <= n,
            forall|j: int| 0 <= j < i ==> is_digit(s@[j]),
        decreases n - i,
    {
        let b = s[i];
        if b < 48 || b > 57 {
            return NumeralRead::NotNumeral;
        }
        i += 1;
    }
    let mut acc: usize = 0;
    let mut k: usize = 0;
    while k < n
        invariant
            n == s@.len(),
            k <= n,
            is_numeral(s@),
            acc == numeral_val(s@.subrange(0, k as int)),
        decreases n - k,
    {
        let d = (s[k] - 48) as usize;
        let wide: u128 = acc as u128 * 10 + d as u128;
        proof {
            assert(s@.subrange(0, k + 1).drop_last() =~= s@.subrange(0, k as int));
        }
        if wide > usize::MAX as u128 {
            proof {
                lemma_numeral_prefix_le(s@, k + 1);
            }
            return NumeralRead::Overflow;
        }
        acc = acc * 10 + d;
        k += 1;
    }
    proof {
        assert(s@.subrange(0, n as int) =~= s@);
    }
    NumeralRead::Value(acc)
}

} // verus!
