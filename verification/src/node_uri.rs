//! The identity-binding URI carried in a peer certificate: a node ID bound
//! as `mesh://node/<decimal>`. The session layer requires this ID to equal
//! the one advertised in the HELLO frame.

use vstd::prelude::*;

verus! {

/// The numeric value of a sequence of ASCII decimal digits.
pub open spec fn spec_decimal_value(s: Seq<u8>) -> int
    decreases s.len(),
{
    if s.len() == 0 {
        0
    } else {
        spec_decimal_value(s.drop_last()) * 10 + (s.last() - 0x30)
    }
}

/// All bytes are ASCII decimal digits.
pub open spec fn all_digits(s: Seq<u8>) -> bool {
    forall|i: int| 0 <= i < s.len() ==> 0x30 <= #[trigger] s[i] <= 0x39
}

/// A decimal numeral's value is never negative.
pub proof fn lemma_decimal_value_nonneg(s: Seq<u8>)
    requires
        all_digits(s),
    ensures
        spec_decimal_value(s) >= 0,
    decreases s.len(),
{
    if s.len() > 0 {
        assert(all_digits(s.drop_last())) by {
            assert(forall|i: int| 0 <= i < s.len() - 1 ==> s.drop_last()[i] == #[trigger] s[i]);
        }
        lemma_decimal_value_nonneg(s.drop_last());
    }
}

/// A numeral is worth at least any of its prefixes.
pub proof fn lemma_decimal_value_prefix(s: Seq<u8>, i: int)
    requires
        all_digits(s),
        0 <= i <= s.len(),
    ensures
        spec_decimal_value(s.subrange(0, i)) <= spec_decimal_value(s),
    decreases s.len() - i,
{
    if i == s.len() {
        assert(s.subrange(0, i) =~= s);
    } else {
        lemma_decimal_value_prefix(s, i + 1);
        let p = s.subrange(0, i + 1);
        assert(p.drop_last() =~= s.subrange(0, i));
        assert(p.last() == s[i]);
        assert(all_digits(s.subrange(0, i))) by {
            assert(forall|t: int| 0 <= t < i ==> s.subrange(0, i)[t] == #[trigger] s[t]);
        }
        lemma_decimal_value_nonneg(s.subrange(0, i));
    }
}

/// The URI prefix that binds a node identity: the bytes of
/// `mesh://node/`.
pub open spec fn spec_node_uri_prefix() -> Seq<u8> {
    seq![
        0x6D, 0x65, 0x73, 0x68, 0x3A, 0x2F, 0x2F, 0x6E, 0x6F, 0x64, 0x65, 0x2F,
    ]
}

/// Whether `uri` is a well-formed node URI, and the ID it binds.
pub open spec fn spec_node_uri_ok(uri: Seq<u8>) -> bool {
    &&& uri.len() > spec_node_uri_prefix().len()
    &&& uri.subrange(0, spec_node_uri_prefix().len() as int) == spec_node_uri_prefix()
    &&& all_digits(uri.subrange(spec_node_uri_prefix().len() as int, uri.len() as int))
    &&& spec_decimal_value(uri.subrange(spec_node_uri_prefix().len() as int, uri.len() as int))
        <= u64::MAX
}

/// Parse the node ID out of a certificate SAN URI of the shape
/// `mesh://node/<decimal u64>`. Succeeds exactly on a URI that is the
/// prefix followed by at least one decimal digit whose value fits 64 bits,
/// and then yields that value.
pub fn parse_node_uri(uri: &[u8]) -> (r: Option<u64>)
    ensures
        match r {
            Some(id) => spec_node_uri_ok(uri@) && id == spec_decimal_value(
                uri@.subrange(spec_node_uri_prefix().len() as int, uri@.len() as int),
            ),
            None => !spec_node_uri_ok(uri@),
        },
{
    let prefix: [u8; 12] = [
        0x6D, 0x65, 0x73, 0x68, 0x3A, 0x2F, 0x2F, 0x6E, 0x6F, 0x64, 0x65, 0x2F,
    ];
    if uri.len() <= 12 {
        return None;
    }
    let mut i: usize = 0;
    while i < 12
        invariant
            i <= 12,
            uri@.len() > 12,
            prefix@ == spec_node_uri_prefix(),
            forall|j: int| 0 <= j < i ==> uri@[j] == spec_node_uri_prefix()[j],
        decreases 12 - i,
    {
        if uri[i] != prefix[i] {
            proof {
                assert(uri@.subrange(0, 12) != spec_node_uri_prefix()) by {
                    assert(uri@.subrange(0, 12)[i as int] == uri@[i as int]);
                }
            }
            return None;
        }
        i = i + 1;
    }
    assert(uri@.subrange(0, 12) =~= spec_node_uri_prefix());
    let ghost digits = uri@.subrange(12, uri@.len() as int);
    let mut value: u64 = 0;
    let mut j: usize = 12;
    while j < uri.len()
        invariant
            12 <= j <= uri@.len(),
            digits == uri@.subrange(12, uri@.len() as int),
            all_digits(digits.subrange(0, j - 12)),
            value == spec_decimal_value(digits.subrange(0, j - 12)),
        decreases uri@.len() - j,
    {
        let b = uri[j];
        if b < 0x30 || b > 0x39 {
            proof {
                assert(digits[j - 12] == b);
                assert(!all_digits(digits));
            }
            return None;
        }
        let digit = (b - 0x30) as u64;
        if value > (u64::MAX - digit) / 10 {
            proof {
                assert(value * 10 + digit > u64::MAX) by (nonlinear_arith)
                    requires
                        value > (u64::MAX - digit) / 10 && digit <= 9,
                ;
                if spec_node_uri_ok(uri@) {
                    lemma_decimal_monotonic(digits, j - 12 + 1);
                    assert(digits.subrange(0, j - 12 + 1).drop_last() =~= digits.subrange(
                        0,
                        j - 12,
                    ));
                    assert(digits.subrange(0, j - 12 + 1).last() == b);
                    assert(spec_decimal_value(digits.subrange(0, j - 12 + 1)) == value * 10
                        + digit);
                    assert(false);
                }
            }
            return None;
        }
        proof {
            assert(value * 10 + digit <= u64::MAX) by (nonlinear_arith)
                requires
                    value <= (u64::MAX - digit) / 10 && digit <= 9,
            ;
        }
        value = value * 10 + digit;
        j = j + 1;
        proof {
            assert(digits.subrange(0, j - 12).drop_last() =~= digits.subrange(0, j - 13));
            assert(digits.subrange(0, j - 12).last() == b);
            assert(all_digits(digits.subrange(0, j - 12))) by {
                assert(forall|t: int|
                    0 <= t < j - 12 ==> digits.subrange(0, j - 12)[t] == #[trigger] digits[t]);
            }
        }
    }
    proof {
        assert(digits.subrange(0, digits.len() as int) =~= digits);
    }
    Some(value)
}

/// Extending a digit string cannot lower its value.
pub proof fn lemma_decimal_monotonic(s: Seq<u8>, k: int)
    requires
        0 <= k <= s.len(),
        all_digits(s),
    ensures
        spec_decimal_value(s.subrange(0, k)) <= spec_decimal_value(s),
        spec_decimal_value(s) >= 0,
    decreases s.len(),
{
    if s.len() == 0 {
        assert(s.subrange(0, 0) =~= s);
    } else {
        let prefix = s.drop_last();
        assert(all_digits(prefix)) by {
            assert(forall|i: int| 0 <= i < prefix.len() ==> prefix[i] == #[trigger] s[i]);
        }
        if k == s.len() {
            assert(s.subrange(0, k) =~= s);
            lemma_decimal_monotonic(prefix, prefix.len() as int);
            assert(spec_decimal_value(prefix) * 10 + (s.last() - 0x30) >= 0) by (nonlinear_arith)
                requires
                    spec_decimal_value(prefix) >= 0 && s.last() >= 0x30,
            ;
        } else {
            assert(s.subrange(0, k) =~= prefix.subrange(0, k));
            lemma_decimal_monotonic(prefix, k);
            assert(spec_decimal_value(prefix) * 10 + (s.last() - 0x30) >= spec_decimal_value(
                prefix,
            )) by (nonlinear_arith)
                requires
                    spec_decimal_value(prefix) >= 0 && s.last() >= 0x30,
            ;
        }
    }
}

} // verus!
