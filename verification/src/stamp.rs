//! The stamp-file encoding.
//!
//! A stamp file holds exactly the decimal digits of the nanosecond
//! timestamp and one trailing newline; the same bytes go to standard
//! output. [`render_stamp`] produces that encoding, [`parse_stamp`]
//! accepts it and nothing else, and [`lemma_stamp_round_trip`] says
//! the encoding pins the timestamp down: reading a stamp back yields
//! the value that was written.

use vstd::prelude::*;
use vstd::arithmetic::div_mod::{lemma_fundamental_div_mod, lemma_fundamental_div_mod_converse};

verus! {

/// The byte of one decimal digit.
pub open spec fn digit_byte(d: int) -> u8 {
    (48 + d) as u8
}

/// The decimal digits of a number, most significant first, no
/// leading zeros (the single digit zero for zero).
pub open spec fn spec_digits(n: int) -> Seq<u8>
    recommends
        n >= 0,
    decreases n,
{
    if n < 10 {
        seq![digit_byte(n)]
    } else {
        spec_digits(n / 10).push(digit_byte(n % 10))
    }
}

/// The full stamp encoding of a timestamp: its digits and a newline.
pub open spec fn spec_stamp(n: u64) -> Seq<u8> {
    spec_digits(n as int).push(10u8)
}

/// Whether every byte is a decimal digit.
pub open spec fn all_digits(ds: Seq<u8>) -> bool {
    forall|i: int| 0 <= i < ds.len() ==> 48 <= #[trigger] ds[i] <= 57
}

/// The canonical digit strings: nonempty, digits only, no leading
/// zero except for the one-digit zero itself.
pub open spec fn canonical_digits(ds: Seq<u8>) -> bool {
    &&& ds.len() >= 1
    &&& all_digits(ds)
    &&& (ds.len() == 1 || ds[0] != 48)
}

/// The number a digit string denotes.
pub open spec fn digits_value(ds: Seq<u8>) -> int
    decreases ds.len(),
{
    if ds.len() == 0 {
        0
    } else {
        digits_value(ds.drop_last()) * 10 + (ds.last() - 48)
    }
}

/// The digits of a number form a canonical digit string denoting it.
pub proof fn lemma_digits_canonical(n: int)
    requires
        n >= 0,
    ensures
        canonical_digits(spec_digits(n)),
        digits_value(spec_digits(n)) == n,
        n >= 1 ==> spec_digits(n)[0] != 48,
    decreases n,
{
    if n < 10 {
        let ds = spec_digits(n);
        assert(ds == seq![digit_byte(n)]);
        assert(ds.drop_last() =~= Seq::<u8>::empty());
        assert(digits_value(Seq::<u8>::empty()) == 0);
        assert(ds.last() == digit_byte(n));
        assert(digits_value(ds) == 0 * 10 + (digit_byte(n) - 48));
    } else {
        lemma_digits_canonical(n / 10);
        lemma_fundamental_div_mod(n, 10);
        let prefix = spec_digits(n / 10);
        let ds = spec_digits(n);
        assert(ds == prefix.push(digit_byte(n % 10)));
        assert(ds.drop_last() =~= prefix);
        assert(forall|i: int|
            0 <= i < ds.len() ==> (i < prefix.len() ==> ds[i] == prefix[i]) && (i == prefix.len()
                ==> ds[i] == digit_byte(n % 10)));
        assert(ds[0] == prefix[0]);
    }
}

/// A digit string denotes a nonnegative number.
proof fn lemma_digits_value_nonneg(ds: Seq<u8>)
    requires
        all_digits(ds),
    ensures
        digits_value(ds) >= 0,
    decreases ds.len(),
{
    if ds.len() > 0 {
        assert(all_digits(ds.drop_last())) by {
            assert(forall|i: int| 0 <= i < ds.len() - 1 ==> ds.drop_last()[i] == ds[i]);
        }
        lemma_digits_value_nonneg(ds.drop_last());
    }
}

/// Without a leading zero a digit string denotes a positive number.
proof fn lemma_digits_value_pos(ds: Seq<u8>)
    requires
        all_digits(ds),
        ds.len() >= 1,
        ds[0] != 48,
    ensures
        digits_value(ds) >= 1,
    decreases ds.len(),
{
    if ds.len() == 1 {
        assert(digits_value(ds) == digits_value(ds.drop_last()) * 10 + (ds.last() - 48));
        assert(ds.drop_last().len() == 0);
    } else {
        assert(all_digits(ds.drop_last()) && ds.drop_last()[0] == ds[0]) by {
            assert(forall|i: int| 0 <= i < ds.len() - 1 ==> ds.drop_last()[i] == ds[i]);
        }
        lemma_digits_value_pos(ds.drop_last());
    }
}

/// Canonical digit strings are exactly the digit renderings: the
/// digits of the number a canonical string denotes are that string.
proof fn lemma_canonical_digits_unique(ds: Seq<u8>)
    requires
        canonical_digits(ds),
    ensures
        spec_digits(digits_value(ds)) == ds,
    decreases ds.len(),
{
    if ds.len() == 1 {
        let v = digits_value(ds);
        assert(v == digits_value(ds.drop_last()) * 10 + (ds.last() - 48));
        assert(ds.drop_last().len() == 0);
        assert(0 <= v < 10);
        assert(ds.last() == ds[0]);
        assert(spec_digits(v) =~= ds);
    } else {
        let prefix = ds.drop_last();
        assert(all_digits(prefix) && prefix[0] == ds[0]) by {
            assert(forall|i: int| 0 <= i < ds.len() - 1 ==> prefix[i] == ds[i]);
        }
        lemma_digits_value_pos(prefix);
        lemma_canonical_digits_unique(prefix);
        let vp = digits_value(prefix);
        let d = ds.last() - 48;
        let v = digits_value(ds);
        assert(v == vp * 10 + d);
        assert(0 <= d < 10);
        lemma_fundamental_div_mod_converse(v, 10, vp, d);
        assert(v >= 10);
        assert(spec_digits(v) == spec_digits(vp).push(digit_byte(d)));
        assert(digit_byte(d) == ds.last());
        assert(spec_digits(v) =~= ds);
    }
}

/// Prefixes of a digit string denote no more than the whole.
proof fn lemma_digits_value_prefix(ds: Seq<u8>, i: int)
    requires
        all_digits(ds),
        0 <= i <= ds.len(),
    ensures
        digits_value(ds.take(i)) <= digits_value(ds),
    decreases ds.len(),
{
    if i == ds.len() {
        assert(ds.take(i) =~= ds);
    } else {
        assert(all_digits(ds.drop_last())) by {
            assert(forall|k: int| 0 <= k < ds.len() - 1 ==> ds.drop_last()[k] == ds[k]);
        }
        assert(ds.take(i) =~= ds.drop_last().take(i));
        lemma_digits_value_prefix(ds.drop_last(), i);
        lemma_digits_value_nonneg(ds.drop_last());
        assert(digits_value(ds) == digits_value(ds.drop_last()) * 10 + (ds.last() - 48));
        assert(digits_value(ds.drop_last()) * 10 >= digits_value(ds.drop_last()));
    }
}

/// The encoding is injective: one stamp content encodes one
/// timestamp. Whoever reads the stamp back gets the value that was
/// printed and written, and nothing else.
pub proof fn lemma_stamp_round_trip(a: u64, b: u64)
    requires
        spec_stamp(a) == spec_stamp(b),
    ensures
        a == b,
{
    lemma_digits_canonical(a as int);
    lemma_digits_canonical(b as int);
    assert(spec_stamp(a).drop_last() =~= spec_digits(a as int));
    assert(spec_stamp(b).drop_last() =~= spec_digits(b as int));
}

fn push_digits(n: u64, out: &mut Vec<u8>)
    ensures
        final(out)@ == old(out)@ + spec_digits(n as int),
    decreases n,
{
    if n < 10 {
        out.push(48 + n as u8);
        proof {
            assert(out@ =~= old(out)@ + spec_digits(n as int));
        }
    } else {
        push_digits(n / 10, out);
        out.push(48 + (n % 10) as u8);
        proof {
            assert(48 + ((n as int) % 10) == digit_byte((n as int) % 10));
            assert(out@ =~= old(out)@ + spec_digits(n as int));
        }
    }
}

/// Render a timestamp as its stamp bytes: decimal digits, one
/// trailing newline.
pub fn render_stamp(n: u64) -> (r: Vec<u8>)
    ensures
        r@ == spec_stamp(n),
{
    let mut out: Vec<u8> = Vec::new();
    push_digits(n, &mut out);
    out.push(10u8);
    proof {
        assert(out@ =~= spec_stamp(n));
    }
    out
}

/// Read a stamp back: the timestamp whose stamp bytes these are, if
/// they are any timestamp's — digits with one trailing newline, no
/// leading zero, within 64 bits — and nothing otherwise.
pub fn parse_stamp(s: &Vec<u8>) -> (r: Option<u64>)
    ensures
        r matches Some(m) ==> s@ == spec_stamp(m),
        forall|m: u64| s@ == spec_stamp(m) ==> r == Some(m),
{
    let n = s.len();
    proof {
        assert forall|m: u64| s@ == spec_stamp(m) implies {
            &&& s@.len() >= 2
            &&& s@.drop_last() == spec_digits(m as int)
            &&& canonical_digits(s@.drop_last())
            &&& digits_value(s@.drop_last()) == m as int
            &&& s@.last() == 10u8
        } by {
            lemma_digits_canonical(m as int);
            assert(s@.drop_last() =~= spec_digits(m as int));
        }
    }
    if n < 2 {
        return None;
    }
    if s[n - 1] != 10 {
        return None;
    }
    if s[0] == 48 && n > 2 {
        proof {
            assert forall|m: u64| s@ != spec_stamp(m) by {
                if s@ == spec_stamp(m) {
                    assert(s@.drop_last()[0] == s@[0]);
                }
            }
        }
        return None;
    }
    let ghost ds = s@.drop_last();
    let mut acc: u64 = 0;
    let mut i: usize = 0;
    while i < n - 1
        invariant
            2 <= n == s@.len(),
            0 <= i <= n - 1,
            s@.last() == 10u8,
            ds == s@.drop_last(),
            s@[0] == 48 ==> n == 2,
            all_digits(ds.take(i as int)),
            acc == digits_value(ds.take(i as int)),
            forall|m: u64| s@ == #[trigger] spec_stamp(m) ==> (canonical_digits(ds)
                && digits_value(ds) == m as int),
        decreases n - 1 - i,
    {
        let b = s[i];
        proof {
            assert(ds[i as int] == s@[i as int]);
        }
        if b < 48 || b > 57 {
            proof {
                assert forall|m: u64| s@ != spec_stamp(m) by {
                    if s@ == spec_stamp(m) {
                        assert(canonical_digits(ds));
                        assert(48 <= ds[i as int] <= 57);
                    }
                }
            }
            return None;
        }
        let d = (b - 48) as u64;
        if acc > (u64::MAX - d) / 10 {
            proof {
                assert(acc * 10 + d > u64::MAX) by (nonlinear_arith)
                    requires
                        acc as int > ((u64::MAX - d) as int) / 10,
                        0 <= d <= 9,
                        acc <= u64::MAX,
                ;
                assert(ds.take(i as int + 1).drop_last() =~= ds.take(i as int));
                assert(ds.take(i as int + 1).last() == ds[i as int]);
                assert(digits_value(ds.take(i as int + 1)) == acc * 10 + d);
                assert forall|m: u64| s@ != spec_stamp(m) by {
                    if s@ == spec_stamp(m) {
                        assert(canonical_digits(ds));
                        assert(digits_value(ds) == m as int);
                        lemma_digits_value_prefix(ds, i as int + 1);
                    }
                }
            }
            return None;
        }
        proof {
            assert(acc * 10 <= u64::MAX - d) by (nonlinear_arith)
                requires
                    acc as int <= ((u64::MAX - d) as int) / 10,
                    0 <= d <= 9,
            ;
            assert(ds.take(i as int + 1).drop_last() =~= ds.take(i as int));
            assert(ds.take(i as int + 1).last() == ds[i as int]);
            assert forall|k: int| 0 <= k < i as int + 1 implies 48 <= #[trigger] ds.take(
                i as int + 1,
            )[k] <= 57 by {
                if k < i as int {
                    assert(48 <= ds.take(i as int)[k] <= 57);
                }
            }
        }
        acc = acc * 10 + d;
        i += 1;
    }
    proof {
        assert(ds.take(i as int) =~= ds);
        assert(canonical_digits(ds));
        lemma_canonical_digits_unique(ds);
        assert(s@ =~= ds.push(s@.last()));
        assert(s@ == spec_stamp(acc));
    }
    Some(acc)
}

} // verus!
