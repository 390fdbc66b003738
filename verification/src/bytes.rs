//! Byte-string helpers: comparison, unit-name normalization, and decimal
//! rendering of integers.
use vstd::prelude::*;

verus! {

pub const APOSTROPHE: u8 = 39;
pub const SPACE: u8 = 32;
pub const UNDERSCORE: u8 = 95;

/// Equality of two byte strings, byte for byte.
pub fn bytes_eq(a: &[u8], b: &[u8]) -> (r: bool)
    ensures
        r == (a@ == b@),
{
    if a.len() != b.len() {
        assert(a@.len() != b@.len());
        return false;
    }
    let mut i: usize = 0;
    while i < a.len()
        invariant
            i <= a@.len(),
            a@.len() == b@.len(),
            forall|j: int| 0 <= j < i ==> a@[j] == b@[j],
        decreases a@.len() - i,
    {
        if a[i] != b[i] {
            return false;
        }
        i += 1;
    }
    assert(a@ =~= b@);
    true
}

/// A unit name as it is indexed and emitted: spaces become underscores and
/// apostrophes are dropped.
pub open spec fn spec_normalize(s: Seq<u8>) -> Seq<u8>
    decreases s.len(),
{
    if s.len() == 0 {
        Seq::empty()
    } else {
        let rest = spec_normalize(s.drop_last());
        let b = s.last();
        if b == APOSTROPHE {
            rest
        } else if b == SPACE {
            rest.push(UNDERSCORE)
        } else {
            rest.push(b)
        }
    }
}

pub fn normalize_name(s: &[u8]) -> (r: Vec<u8>)
    ensures
        r@ == spec_normalize(s@),
{
    let mut out: Vec<u8> = Vec::new();
    let mut i: usize = 0;
    while i < s.len()
        invariant
            i <= s@.len(),
            out@ == spec_normalize(s@.take(i as int)),
        decreases s@.len() - i,
    {
        proof {
            assert(s@.take(i + 1).drop_last() =~= s@.take(i as int));
            assert(s@.take(i + 1).last() == s@[i as int]);
        }
        let b = s[i];
        if b == APOSTROPHE {
        } else if b == SPACE {
            out.push(UNDERSCORE);
        } else {
            out.push(b);
        }
        i += 1;
    }
    proof {
        assert(s@.take(s@.len() as int) =~= s@);
    }
    out
}

/// The byte strings a sequence of byte vectors holds.
pub open spec fn views_of(s: Seq<Vec<u8>>) -> Seq<Seq<u8>> {
    Seq::new(s.len(), |i: int| s[i]@)
}

/// The byte-string pairs a vector of byte-vector pairs holds.
pub open spec fn pairs_view(s: Seq<(Vec<u8>, Vec<u8>)>) -> Seq<(Seq<u8>, Seq<u8>)> {
    Seq::new(s.len(), |i: int| (s[i].0@, s[i].1@))
}

/// The decimal digits of `n`, most significant first.
pub open spec fn spec_dec_digits(n: nat) -> Seq<u8>
    decreases n,
{
    if n < 10 {
        seq![(48 + n) as u8]
    } else {
        spec_dec_digits(n / 10).push((48 + n % 10) as u8)
    }
}

/// The decimal rendering of a signed value given as sign and magnitude.
pub open spec fn spec_dec_repr(neg: bool, n: nat) -> Seq<u8> {
    if neg {
        seq![45u8] + spec_dec_digits(n)
    } else {
        spec_dec_digits(n)
    }
}

fn push_dec_digits(n: u64, out: &mut Vec<u8>)
    ensures
        final(out)@ == old(out)@ + spec_dec_digits(n as nat),
    decreases n,
{
    if n < 10 {
        out.push(48 + (n as u8));
        assert(out@ =~= old(out)@ + spec_dec_digits(n as nat));
    } else {
        push_dec_digits(n / 10, out);
        out.push(48 + ((n % 10) as u8));
        assert(out@ =~= old(out)@ + spec_dec_digits(n as nat));
    }
}

/// Renders a sign-and-magnitude value in decimal, as the output table needs
/// for its modifier attributes.
pub fn dec_repr(neg: bool, n: u64) -> (r: Vec<u8>)
    ensures
        r@ == spec_dec_repr(neg, n as nat),
{
    let mut out: Vec<u8> = Vec::new();
    if neg {
        out.push(45);
    }
    push_dec_digits(n, &mut out);
    proof {
        if neg {
            assert(out@ =~= seq![45u8] + spec_dec_digits(n as nat));
        } else {
            assert(out@ =~= spec_dec_digits(n as nat));
        }
    }
    out
}

} // verus!
