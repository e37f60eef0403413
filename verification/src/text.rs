//! Small verified helpers for text: decimal rendering of integers and
//! byte-vector equality, used by the chunk and file stores.

use vstd::prelude::*;
use vstd::string::StringSliceAdditionalSpecFns;

verus! {

/// The decimal digit character for a value in `0..10`.
pub open spec fn dec_digit_char(d: int) -> char {
    if d == 0 {
        '0'
    } else if d == 1 {
        '1'
    } else if d == 2 {
        '2'
    } else if d == 3 {
        '3'
    } else if d == 4 {
        '4'
    } else if d == 5 {
        '5'
    } else if d == 6 {
        '6'
    } else if d == 7 {
        '7'
    } else if d == 8 {
        '8'
    } else {
        '9'
    }
}

/// The decimal rendering of `n`, with no leading zeros (just "0" for 0).
pub open spec fn dec_string(n: int) -> Seq<char>
    decreases n,
{
    if n <= 0 {
        seq![dec_digit_char(0)]
    } else if n < 10 {
        seq![dec_digit_char(n)]
    } else {
        dec_string(n / 10).push(dec_digit_char(n % 10))
    }
}

/// A one-character string for a decimal digit.
fn dec_digit_str(d: u64) -> (r: &'static str)
    requires
        d < 10,
    ensures
        r@ =~= seq![dec_digit_char(d as int)],
{
    proof {
        reveal_strlit("0");
        reveal_strlit("1");
        reveal_strlit("2");
        reveal_strlit("3");
        reveal_strlit("4");
        reveal_strlit("5");
        reveal_strlit("6");
        reveal_strlit("7");
        reveal_strlit("8");
        reveal_strlit("9");
    }
    if d == 0 {
        "0"
    } else if d == 1 {
        "1"
    } else if d == 2 {
        "2"
    } else if d == 3 {
        "3"
    } else if d == 4 {
        "4"
    } else if d == 5 {
        "5"
    } else if d == 6 {
        "6"
    } else if d == 7 {
        "7"
    } else if d == 8 {
        "8"
    } else {
        "9"
    }
}

/// Appends the decimal rendering of `n` to `out`.
pub fn append_dec(out: &mut String, n: u64)
    ensures
        final(out)@ == old(out)@ + dec_string(n as int),
    decreases n,
{
    if n < 10 {
        out.append(dec_digit_str(n));
    } else {
        append_dec(out, n / 10);
        out.append(dec_digit_str(n % 10));
        proof {
            assert(dec_string(n as int) == dec_string(n as int / 10).push(
                dec_digit_char(n as int % 10),
            ));
            assert(old(out)@ + dec_string(n as int / 10) + seq![
                dec_digit_char(n as int % 10),
            ] =~= old(out)@ + dec_string(n as int));
        }
    }
}

/// The decimal rendering of `n` as a fresh string.
pub fn u64_to_dec_string(n: u64) -> (r: String)
    ensures
        r@ == dec_string(n as int),
{
    let mut out = String::new();
    append_dec(&mut out, n);
    proof {
        assert(Seq::<char>::empty() + dec_string(n as int) =~= dec_string(n as int));
    }
    out
}

/// Whether `c` is a decimal digit character.
pub open spec fn is_dec_digit_char(c: char) -> bool {
    48 <= c as int <= 57
}

/// The numeric value of a digit string, most significant digit first.
pub open spec fn dec_value(s: Seq<char>) -> int
    decreases s.len(),
{
    if s.len() == 0 {
        0
    } else {
        dec_value(s.drop_last()) * 10 + (s.last() as int - 48)
    }
}

/// A digit string's value is non-negative.
pub proof fn lemma_dec_value_nonneg(s: Seq<char>)
    requires
        forall|p: int| 0 <= p < s.len() ==> is_dec_digit_char(#[trigger] s[p]),
    ensures
        dec_value(s) >= 0,
    decreases s.len(),
{
    if s.len() > 0 {
        lemma_dec_value_nonneg(s.drop_last());
        assert(dec_value(s.drop_last()) * 10 >= 0) by (nonlinear_arith)
            requires
                dec_value(s.drop_last()) >= 0,
        ;
    }
}

/// A digit string's value is at least the value of any of its prefixes.
pub proof fn lemma_dec_value_prefix_monotone(s: Seq<char>, p: int)
    requires
        forall|q: int| 0 <= q < s.len() ==> is_dec_digit_char(#[trigger] s[q]),
        0 <= p <= s.len(),
    ensures
        dec_value(s) >= dec_value(s.take(p)),
    decreases s.len() - p,
{
    if p < s.len() {
        assert(s.take(p + 1).drop_last() =~= s.take(p));
        assert(s.take(p + 1).last() == s[p]);
        assert forall|q: int| 0 <= q < s.take(p).len() implies is_dec_digit_char(
            #[trigger] s.take(p)[q],
        ) by {
            assert(s.take(p)[q] == s[q]);
        }
        lemma_dec_value_nonneg(s.take(p));
        assert(dec_value(s.take(p + 1)) >= dec_value(s.take(p))) by (nonlinear_arith)
            requires
                dec_value(s.take(p + 1)) == dec_value(s.take(p)) * 10 + (s[p] as int - 48),
                dec_value(s.take(p)) >= 0,
                48 <= s[p] as int <= 57,
        ;
        lemma_dec_value_prefix_monotone(s, p + 1);
        assert(s.take(s.len() as int) =~= s);
    } else {
        assert(s.take(s.len() as int) =~= s);
    }
}

/// The rendering of `n` is a digit string whose value is `n`.
pub proof fn lemma_dec_string_value(n: int)
    requires
        n >= 0,
    ensures
        forall|p: int|
            0 <= p < dec_string(n).len() ==> is_dec_digit_char(#[trigger] dec_string(n)[p]),
        dec_value(dec_string(n)) == n,
        dec_string(n).len() >= 1,
    decreases n,
{
    if n < 10 {
        assert(dec_string(n) == seq![dec_digit_char(n)]);
        assert(dec_string(n).drop_last() =~= Seq::<char>::empty());
        assert(dec_value(Seq::<char>::empty()) == 0);
        assert(dec_value(dec_string(n)) == 0 * 10 + (dec_digit_char(n) as int - 48));
    } else {
        lemma_dec_string_value(n / 10);
        assert(dec_string(n) == dec_string(n / 10).push(dec_digit_char(n % 10)));
        assert(dec_string(n).drop_last() =~= dec_string(n / 10));
        vstd::arithmetic::div_mod::lemma_fundamental_div_mod(n, 10);
        assert(dec_value(dec_string(n)) == (n / 10) * 10 + (n % 10));
        assert((n / 10) * 10 == 10 * (n / 10)) by (nonlinear_arith);
    }
}

/// A run of zero characters in front of a digit string leaves its value as it
/// is.
pub proof fn lemma_dec_value_leading_zeros(zeros: Seq<char>, s: Seq<char>)
    requires
        forall|p: int| 0 <= p < zeros.len() ==> #[trigger] zeros[p] == '0',
    ensures
        dec_value(zeros + s) == dec_value(s),
    decreases s.len(),
{
    if s.len() == 0 {
        assert(zeros + s =~= zeros);
        lemma_dec_value_all_zeros(zeros);
    } else {
        assert((zeros + s).drop_last() =~= zeros + s.drop_last());
        assert((zeros + s).last() == s.last());
        lemma_dec_value_leading_zeros(zeros, s.drop_last());
    }
}

/// A string of only zero characters has value zero.
pub proof fn lemma_dec_value_all_zeros(zeros: Seq<char>)
    requires
        forall|p: int| 0 <= p < zeros.len() ==> #[trigger] zeros[p] == '0',
    ensures
        dec_value(zeros) == 0,
    decreases zeros.len(),
{
    if zeros.len() > 0 {
        lemma_dec_value_all_zeros(zeros.drop_last());
        assert(zeros.last() == '0');
    }
}

/// Inserts `x` into a strictly ascending vector, keeping it strictly
/// ascending.
pub fn insert_sorted(out: &mut Vec<u64>, x: u64)
    requires
        forall|a: int, b: int| 0 <= a < b < old(out)@.len() ==> old(out)@[a] < old(out)@[b],
        !old(out)@.contains(x),
    ensures
        forall|a: int, b: int| 0 <= a < b < final(out)@.len() ==> final(out)@[a] < final(out)@[b],
        forall|n: u64| final(out)@.contains(n) <==> (old(out)@.contains(n) || n == x),
        final(out)@.len() == old(out)@.len() + 1,
{
    let mut p: usize = 0;
    while p < out.len() && out[p] < x
        invariant
            p <= out@.len(),
            out@ == old(out)@,
            forall|j: int| 0 <= j < p ==> old(out)@[j] < x,
        decreases out@.len() - p,
    {
        p += 1;
    }
    proof {
        if p < out@.len() {
            if out@[p as int] == x {
                assert(out@.contains(x));
            }
            assert(out@[p as int] > x);
        }
    }
    out.insert(p, x);
    proof {
        let new = out@;
        let pre = old(out)@;
        assert(new == pre.insert(p as int, x));
        assert(new.len() == pre.len() + 1);
        assert forall|a: int, b: int| 0 <= a < b < new.len() implies new[a] < new[b] by {
            assert(forall|k: int| 0 <= k < p ==> new[k] == pre[k]);
            assert(new[p as int] == x);
            assert(forall|k: int| p < k < new.len() ==> new[k] == pre[k - 1]);
            if a < p && b < p {
            } else if a < p && b == p {
            } else if a < p && b > p {
                assert(pre[a] < x);
                if b - 1 == p as int {
                } else {
                }
                assert(x <= pre[b - 1]) by {
                    if p < pre.len() {
                        assert(x < pre[p as int]);
                        if b - 1 > p {
                            assert(pre[p as int] < pre[b - 1]);
                        }
                    }
                }
            } else if a == p {
                assert(new[b] == pre[b - 1]);
                assert(b - 1 >= p);
                if p < pre.len() {
                    assert(x < pre[p as int]);
                    if b - 1 > p {
                        assert(pre[p as int] < pre[b - 1]);
                    }
                }
            } else {
            }
        }
        assert forall|n: u64| new.contains(n) <==> (pre.contains(n) || n == x) by {
            if new.contains(n) {
                let k = choose|k: int| 0 <= k < new.len() && new[k] == n;
                if k < p {
                    assert(pre[k] == n);
                } else if k == p {
                } else {
                    assert(pre[k - 1] == n);
                }
            }
            if pre.contains(n) {
                let k = choose|k: int| 0 <= k < pre.len() && pre[k] == n;
                if k < p {
                    assert(new[k] == n);
                } else {
                    assert(new[k + 1] == n);
                }
            }
            if n == x {
                assert(new[p as int] == n);
            }
        }
    }
}

/// Relies on `String::from_utf8`: succeeds exactly on valid UTF-8 and
/// decodes it, so that re-encoding the result gives the input bytes back.
#[verifier::external_body]
pub fn string_from_utf8(bytes: Vec<u8>) -> (r: Result<String, ()>)
    ensures
        r matches Ok(s) ==> vstd::utf8::valid_utf8(bytes@) && vstd::utf8::encode_utf8(s@)
            == bytes@,
        r is Err <==> !vstd::utf8::valid_utf8(bytes@),
{
    match String::from_utf8(bytes) {
        Ok(s) => Ok(s),
        Err(_) => Err(()),
    }
}

/// Byte-vector equality, exposed at the view level.
pub fn bytes_eq(a: &Vec<u8>, b: &Vec<u8>) -> (r: bool)
    ensures
        r == (a@ == b@),
{
    if a.len() != b.len() {
        proof {
            assert(a@ != b@) by {
                assert(a@.len() != b@.len());
            }
        }
        return false;
    }
    let mut i: usize = 0;
    while i < a.len()
        invariant
            i <= a@.len(),
            a@.len() == b@.len(),
            forall|j: int| 0 <= j < i ==> a@[j] == b@[j],
        decreases a@.len() - i,
    {
        if a[i] != b[i] {
            return false;
        }
        i += 1;
    }
    proof {
        assert(a@ =~= b@);
    }
    true
}


/// Byte-slice equality, exposed at the view level.
pub fn slice_u8_eq(a: &[u8], b: &[u8]) -> (r: bool)
    ensures
        r == (a@ == b@),
{
    if a.len() != b.len() {
        proof {
            assert(a@.len() != b@.len());
        }
        return false;
    }
    let mut i: usize = 0;
    while i < a.len()
        invariant
            i <= a@.len(),
            a@.len() == b@.len(),
            forall|j: int| 0 <= j < i ==> a@[j] == b@[j],
        decreases a@.len() - i,
    {
        if a[i] != b[i] {
            return false;
        }
        i += 1;
    }
    proof {
        assert(a@ =~= b@);
    }
    true
}

/// String equality at the character level, decided by comparing the UTF-8
/// bytes; UTF-8 encoding is injective, so byte equality is string equality.
pub fn str_eq(a: &str, b: &str) -> (r: bool)
    ensures
        r == (a@ == b@),
{
    let eq = slice_u8_eq(a.as_bytes(), b.as_bytes());
    proof {
        vstd::utf8::encode_utf8_decode_utf8(a@);
        vstd::utf8::encode_utf8_decode_utf8(b@);
    }
    eq
}

/// Whether `d` is a proper prefix of `q` followed by a slash, at the
/// character level, for ASCII strings.
pub fn str_dir_covers(d: &str, q: &str) -> (r: bool)
    requires
        d.is_ascii(),
        q.is_ascii(),
    ensures
        r == (d@.len() < q@.len() && q@.take(d@.len() as int) == d@ && q@[d@.len() as int] == '/'),
{
    proof {
        vstd::string::is_ascii_spec_bytes(d);
        vstd::string::is_ascii_spec_bytes(q);
    }
    let db = d.as_bytes();
    let qb = q.as_bytes();
    if db.len() >= qb.len() {
        return false;
    }
    if qb[db.len()] != 47 {
        proof {
            assert(q@[d@.len() as int] as u8 == qb@[d@.len() as int]);
            assert(q@[d@.len() as int] != '/');
        }
        return false;
    }
    let mut j: usize = 0;
    while j < db.len()
        invariant
            d.is_ascii(),
            q.is_ascii(),
            db@ == d.spec_bytes(),
            qb@ == q.spec_bytes(),
            d@.len() == db@.len(),
            q@.len() == qb@.len(),
            d@.len() < q@.len(),
            j <= db@.len(),
            forall|m: int| 0 <= m < j ==> q@[m] == d@[m],
        decreases db@.len() - j,
    {
        if qb[j] != db[j] {
            proof {
                assert(q@[j as int] as u8 == qb@[j as int]);
                assert(d@[j as int] as u8 == db@[j as int]);
                assert(q@[j as int] != d@[j as int]);
                assert(q@.take(d@.len() as int)[j as int] == q@[j as int]);
            }
            return false;
        }
        proof {
            assert(q@[j as int] as u8 == qb@[j as int]);
            assert(d@[j as int] as u8 == db@[j as int]);
            assert('\0' <= q@[j as int] <= '\u{7f}');
            assert('\0' <= d@[j as int] <= '\u{7f}');
            assert(q@[j as int] == d@[j as int]);
        }
        j += 1;
    }
    proof {
        assert(q@.take(d@.len() as int) =~= d@);
        assert(q@[d@.len() as int] as u8 == qb@[d@.len() as int]);
        assert(q@[d@.len() as int] == '/');
    }
    true
}


/// Copies an optional string.
pub fn clone_opt_string(o: &Option<String>) -> (r: Option<String>)
    ensures
        r == *o,
{
    match o {
        None => None,
        Some(s) => Some(s.clone()),
    }
}

} // verus!
