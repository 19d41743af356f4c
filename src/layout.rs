use vstd::prelude::*;
use vstd::string::*;
use crate::record::{decimal_value, digit_value, is_decimal, is_digit, parse_record_id, record_key, u64_text};
use crate::state::FetchCursor;
use crate::time::{millis_to_rfc3339, rfc3339_millis, rfc3339_text, timestamp_from_str};

verus! {

/// What every record partition's name starts with.
pub open spec fn partition_prefix() -> Seq<char> {
    seq!['t', 'i', 'm', 'e', 'l', 'i', 'n', 'e', ':']
}

/// What follows an identity's name in the key of its delivery cursor.
pub open spec fn delivery_suffix() -> Seq<char> {
    seq!['#', 'd', 'e', 'l', 'i', 'v', 'e', 'r', 'y']
}

/// The name of the partition that holds the records of `identity`.
pub fn partition_name(identity: &str) -> (r: String)
    ensures
        r@ == partition_prefix() + identity@,
{
    proof {
        reveal_strlit("timeline:");
    }
    let p = String::from_str("timeline:");
    assert(p@ =~= partition_prefix());
    p.concat(identity)
}

/// The identity whose records a partition of this name holds, if it is a
/// record partition at all.
pub fn identity_of_partition(name: &str) -> (r: Option<String>)
    ensures
        r is Some <==> (name@.len() >= partition_prefix().len() && name@.take(
            partition_prefix().len() as int,
        ) == partition_prefix()),
        r matches Some(i) ==> i@ == name@.skip(partition_prefix().len() as int),
{
    proof {
        reveal_strlit("timeline:");
    }
    let prefix = "timeline:";
    assert(prefix@ =~= partition_prefix());
    let n = name.unicode_len();
    if n < 9 {
        return None;
    }
    let mut i: usize = 0;
    while i < 9
        invariant
            prefix@ == partition_prefix(),
            n == name@.len(),
            9 <= n,
            i <= 9,
            forall|j: int| 0 <= j < i ==> name@[j] == prefix@[j],
        decreases 9 - i,
    {
        if name.get_char(i) != prefix.get_char(i) {
            proof {
                assert(name@.take(9)[i as int] != partition_prefix()[i as int]);
            }
            return None;
        }
        i = i + 1;
    }
    assert(name@.take(9) =~= partition_prefix());
    let rest = name.substring_char(9, n);
    assert(rest@ =~= name@.skip(9));
    Some(String::from_str(rest))
}

/// The key, in the cursor partition, of the delivery cursor of `identity`;
/// its fetch cursor is keyed by the bare name.
pub fn delivery_state_key(identity: &str) -> (r: String)
    ensures
        r@ == identity@ + delivery_suffix(),
{
    proof {
        reveal_strlit("#delivery");
    }
    let s = String::from_str(identity);
    let r = s.concat("#delivery");
    assert(r@ =~= identity@ + delivery_suffix());
    r
}

/// The stored text of a fetch cursor: the token itself, or the RFC 3339
/// time of the marker (`None` where the marker is out of range).
pub fn fetch_cursor_text(c: &FetchCursor) -> (r: Option<String>)
    ensures
        c matches FetchCursor::NextToken(t) ==> r == Some(*t),
        c matches FetchCursor::SinceMarker(ms) ==> {
            &&& r is None <==> rfc3339_text(*ms) is None
            &&& r matches Some(t) ==> rfc3339_text(*ms) == Some(t@)
        },
{
    match c {
        FetchCursor::NextToken(t) => Some(t.clone()),
        FetchCursor::SinceMarker(ms) => millis_to_rfc3339(*ms),
    }
}

/// Reads a stored fetch cursor: an RFC 3339 time is a since marker, any
/// other text a continuation token.
pub fn fetch_cursor_from_text(s: &str) -> (r: FetchCursor)
    ensures
        rfc3339_millis(s@) matches Some(ms) ==> r == FetchCursor::SinceMarker(ms),
        rfc3339_millis(s@) is None ==> (r matches FetchCursor::NextToken(t) && t@ == s@),
{
    match timestamp_from_str(s) {
        Ok(ms) => FetchCursor::SinceMarker(ms),
        Err(_) => FetchCursor::NextToken(String::from_str(s)),
    }
}

/// The stored text of a delivery cursor: its key in decimal.
pub fn delivery_cursor_text(key: u64) -> (r: String)
    ensures
        is_decimal(r@),
        decimal_value(r@) == key,
{
    u64_text(key)
}

/// Reads a stored delivery cursor.
pub fn delivery_cursor_from_text(s: &str) -> (r: Option<u64>)
    ensures
        r == record_key(s@),
{
    parse_record_id(s)
}

/// Width of a stored record key: enough digits for any `u64`.
pub const KEY_WIDTH: usize = 20;

proof fn lemma_zeros_prefix(z: Seq<char>, s: Seq<char>)
    requires
        forall|i: int| 0 <= i < z.len() ==> #[trigger] z[i] == '0',
    ensures
        decimal_value(z + s) == decimal_value(s),
    decreases z.len() + s.len(),
{
    if s.len() == 0 {
        assert(z + s =~= z);
        if z.len() > 0 {
            lemma_zeros_prefix(z.drop_last(), s);
            assert(z.drop_last() + s =~= z.drop_last());
        }
    } else {
        lemma_zeros_prefix(z, s.drop_last());
        assert((z + s).drop_last() =~= z + s.drop_last());
    }
}

/// The stored form of a record key: its decimal digits padded with leading
/// zeros to `KEY_WIDTH`, so that byte order is key order.
pub fn key_text(key: u64) -> (r: String)
    ensures
        r@.len() == KEY_WIDTH,
        is_decimal(r@),
        decimal_value(r@) == key,
{
    let digits = u64_text(key);
    let n = digits.unicode_len();
    assert(n <= KEY_WIDTH) by {
        if n > 20 {
            assert(decimal_value(digits@) > u64::MAX) by {
                lemma_decimal_lower(digits@);
            }
        }
    }
    proof {
        reveal_strlit("0");
    }
    let mut r = String::new();
    let mut i: usize = 0;
    while i < KEY_WIDTH - n
        invariant
            n == digits@.len(),
            n <= KEY_WIDTH,
            i <= KEY_WIDTH - n,
            r@.len() == i,
            forall|j: int| 0 <= j < i ==> #[trigger] r@[j] == '0',
        decreases KEY_WIDTH - n - i,
    {
        proof {
            reveal_strlit("0");
        }
        r.append("0");
        i = i + 1;
    }
    proof {
        lemma_zeros_prefix(r@, digits@);
    }
    let out = r.concat(digits.as_str());
    proof {
        assert forall|j: int| 0 <= j < out@.len() implies is_digit(#[trigger] out@[j]) by {
            if j >= r@.len() {
                assert(out@[j] == digits@[j - r@.len()]);
            }
        }
    }
    out
}

/// A string of more than 20 digits without a leading zero exceeds `u64`.
proof fn lemma_decimal_lower(s: Seq<char>)
    requires
        is_decimal(s),
        s.len() > 1 ==> s[0] != '0',
    ensures
        s.len() > 20 ==> decimal_value(s) > u64::MAX,
{
    if s.len() > 20 {
        lemma_decimal_at_least(s, s.len() as nat);
        assert(pow10((s.len() - 1) as nat) >= pow10(20)) by {
            lemma_pow10_mono(20, (s.len() - 1) as nat);
        }
        assert(pow10(20) == 100000000000000000000) by {
            reveal_with_fuel(pow10, 21);
        }
    }
}

spec fn pow10(n: nat) -> int
    decreases n,
{
    if n == 0 {
        1
    } else {
        10 * pow10((n - 1) as nat)
    }
}

proof fn lemma_pow10_mono(a: nat, b: nat)
    requires
        a <= b,
    ensures
        pow10(a) <= pow10(b),
        pow10(a) >= 1,
    decreases b,
{
    if b > a {
        lemma_pow10_mono(a, (b - 1) as nat);
    } else if a > 0 {
        lemma_pow10_mono((a - 1) as nat, (a - 1) as nat);
    }
}

/// A digit string of length `n` whose first digit is not zero is at least
/// ten to the `n - 1`.
proof fn lemma_decimal_at_least(s: Seq<char>, n: nat)
    requires
        n == s.len(),
        n >= 1,
        forall|i: int| 0 <= i < s.len() ==> is_digit(#[trigger] s[i]),
        s[0] != '0',
    ensures
        decimal_value(s) >= pow10((n - 1) as nat),
    decreases n,
{
    let t = s.drop_last();
    if n > 1 {
        assert(t[0] == s[0]);
        lemma_decimal_at_least(t, (n - 1) as nat);
        let a = decimal_value(t);
        let b = pow10((n - 2) as nat);
        assert(a * 10 >= b * 10) by (nonlinear_arith)
            requires
                a >= b,
        ;
        assert(pow10((n - 1) as nat) == 10 * b);
        assert(is_digit(s[n - 1]));
        assert(digit_value(s.last()) >= 0);
        assert(decimal_value(s) == a * 10 + digit_value(s.last()));
    } else {
        assert(t.len() == 0);
        assert(decimal_value(t) == 0);
        assert(s.last() == s[0]);
        assert(is_digit(s[0]));
        assert(s[0] as int >= '0' as int && s[0] as int != '0' as int);
        assert(decimal_value(s) == digit_value(s[0]));
        assert(pow10(0) == 1);
    }
}

} // verus!
