use vstd::prelude::*;
use vstd::string::*;

verus! {

/// One record of an upstream timeline: a stable id, its creation time as an
/// RFC 3339 string, and its text.
pub struct Tweet {
    pub id: String,
    pub created_at: String,
    pub text: String,
}

impl Tweet {
    /// A field-by-field copy of the record.
    pub fn duplicate(&self) -> (r: Tweet)
        ensures
            r == *self,
    {
        Tweet { id: self.id.clone(), created_at: self.created_at.clone(), text: self.text.clone() }
    }
}

pub open spec fn is_digit(c: char) -> bool {
    '0' <= c && c <= '9'
}

pub open spec fn digit_value(c: char) -> int {
    c as int - '0' as int
}

/// Every character is a decimal digit, and there is at least one.
pub open spec fn is_decimal(s: Seq<char>) -> bool {
    s.len() > 0 && forall|i: int| 0 <= i < s.len() ==> is_digit(#[trigger] s[i])
}

/// The number that a string of decimal digits denotes.
pub open spec fn decimal_value(s: Seq<char>) -> int
    decreases s.len(),
{
    if s.len() == 0 {
        0
    } else {
        decimal_value(s.drop_last()) * 10 + digit_value(s.last())
    }
}

/// The insertion key of a record: its id read as a decimal `u64`.
pub open spec fn record_key(id: Seq<char>) -> Option<u64> {
    if is_decimal(id) && decimal_value(id) <= u64::MAX {
        Some(decimal_value(id) as u64)
    } else {
        None
    }
}

proof fn lemma_decimal_nonneg(s: Seq<char>)
    requires
        forall|i: int| 0 <= i < s.len() ==> is_digit(#[trigger] s[i]),
    ensures
        decimal_value(s) >= 0,
    decreases s.len(),
{
    if s.len() > 0 {
        lemma_decimal_nonneg(s.drop_last());
    }
}

/// The character of a decimal digit.
pub open spec fn digit_char(d: u64) -> char {
    if d == 0 { '0' } else if d == 1 { '1' } else if d == 2 { '2' } else if d == 3 { '3' }
    else if d == 4 { '4' } else if d == 5 { '5' } else if d == 6 { '6' } else if d == 7 { '7' }
    else if d == 8 { '8' } else { '9' }
}

/// The decimal digits of `n`, without leading zeros.
pub open spec fn decimal_text(n: u64) -> Seq<char>
    decreases n,
{
    if n < 10 {
        seq![digit_char(n)]
    } else {
        decimal_text(n / 10).push(digit_char(n % 10))
    }
}

proof fn lemma_digit_char(d: u64)
    requires
        d < 10,
    ensures
        is_digit(digit_char(d)),
        digit_value(digit_char(d)) == d,
{
}

proof fn lemma_decimal_text(n: u64)
    ensures
        is_decimal(decimal_text(n)),
        decimal_value(decimal_text(n)) == n,
        decimal_text(n).len() > 1 ==> decimal_text(n)[0] != '0',
        decimal_text(n).len() >= 1,
        n >= 10 ==> decimal_text(n).len() > 1,
    decreases n,
{
    if n < 10 {
        lemma_digit_char(n);
        assert(decimal_text(n).drop_last() =~= Seq::<char>::empty());
        assert(decimal_text(n).last() == digit_char(n));
        assert(decimal_value(Seq::<char>::empty()) == 0);
    } else {
        lemma_decimal_text(n / 10);
        lemma_digit_char(n % 10);
        let t = decimal_text(n);
        assert(t.drop_last() =~= decimal_text(n / 10));
        assert forall|i: int| 0 <= i < t.len() implies is_digit(#[trigger] t[i]) by {
            if i < t.len() - 1 {
                assert(t[i] == decimal_text(n / 10)[i]);
            }
        }
        let q = n / 10;
        assert(q * 10 + n % 10 == n);
        assert(t.last() == digit_char(n % 10));
        assert(decimal_value(t) == decimal_value(decimal_text(q)) * 10 + digit_value(t.last()));
        if q < 10 {
            assert(q >= 1);
            assert(decimal_text(q) == seq![digit_char(q)]);
            assert(digit_char(q) != '0');
        }
        assert(decimal_text(q).len() >= 1);
        assert(t[0] == decimal_text(q)[0]);
    }
}

fn digit_str(d: u64) -> (r: &'static str)
    requires
        d < 10,
    ensures
        r@ == seq![digit_char(d)],
{
    proof {
        reveal_strlit("0");
        reveal_strlit("1");
        reveal_strlit("2");
        reveal_strlit("3");
        reveal_strlit("4");
        reveal_strlit("5");
        reveal_strlit("6");
        reveal_strlit("7");
        reveal_strlit("8");
        reveal_strlit("9");
    }
    let r = if d == 0 { "0" } else if d == 1 { "1" } else if d == 2 { "2" } else if d == 3 { "3" }
    else if d == 4 { "4" } else if d == 5 { "5" } else if d == 6 { "6" } else if d == 7 { "7" }
    else if d == 8 { "8" } else { "9" };
    assert(r@ =~= seq![digit_char(d)]);
    r
}

fn append_decimal(n: u64, out: &mut String)
    ensures
        final(out)@ == old(out)@ + decimal_text(n),
    decreases n,
{
    if n >= 10 {
        append_decimal(n / 10, out);
    }
    out.append(digit_str(n % 10));
    proof {
        if n < 10 {
            assert(old(out)@ + decimal_text(n) =~= old(out)@ + seq![digit_char(n)]);
        } else {
            assert(old(out)@ + decimal_text(n) =~= old(out)@ + decimal_text(n / 10) + seq![digit_char(n % 10)]);
        }
    }
}

/// The decimal digits of `n`, without leading zeros.
pub fn u64_text(n: u64) -> (r: String)
    ensures
        r@ == decimal_text(n),
        is_decimal(r@),
        decimal_value(r@) == n,
        r@.len() > 1 ==> r@[0] != '0',
{
    let mut r = String::new();
    append_decimal(n, &mut r);
    proof {
        assert(r@ =~= decimal_text(n));
        lemma_decimal_text(n);
    }
    r
}

/// Reads a record id as its insertion key.
pub fn parse_record_id(id: &str) -> (r: Option<u64>)
    ensures
        r == record_key(id@),
{
    let n = id.unicode_len();
    if n == 0 {
        return None;
    }
    let mut acc: u64 = 0;
    let mut i: usize = 0;
    let mut overflow = false;
    while i < n
        invariant
            n == id@.len(),
            i <= n,
            forall|j: int| 0 <= j < i ==> is_digit(#[trigger] id@[j]),
            !overflow ==> acc as int == decimal_value(id@.take(i as int)),
            overflow ==> decimal_value(id@.take(i as int)) > u64::MAX,
        decreases n - i,
    {
        let c = id.get_char(i);
        if !('0' <= c && c <= '9') {
            return None;
        }
        proof {
            let t = id@.take(i as int + 1);
            assert(t.drop_last() =~= id@.take(i as int));
            assert(t.last() == c);
            assert forall|j: int| 0 <= j < i implies is_digit(#[trigger] id@.take(i as int)[j]) by {}
            lemma_decimal_nonneg(id@.take(i as int));
        }
        if !overflow {
            let d = (c as u32 - '0' as u32) as u64;
            let wide: u128 = acc as u128 * 10 + d as u128;
            if wide > u64::MAX as u128 {
                overflow = true;
            } else {
                acc = wide as u64;
            }
        }
        i = i + 1;
    }
    proof {
        assert(id@.take(n as int) =~= id@);
    }
    if overflow {
        None
    } else {
        Some(acc)
    }
}

} // verus!
