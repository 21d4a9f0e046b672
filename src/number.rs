use vstd::prelude::*;

verus! {

pub open spec fn is_digit(c: char) -> bool {
    '0' <= c <= '9'
}

pub open spec fn all_digits(t: Seq<char>) -> bool {
    forall|i: int| 0 <= i < t.len() ==> is_digit(#[trigger] t[i])
}

/// The number that a run of decimal digits denotes.
pub open spec fn digits_value(t: Seq<char>) -> nat
    decreases t.len(),
{
    if t.len() == 0 {
        0
    } else {
        (digits_value(t.drop_last()) * 10 + (t.last() as int - '0' as int)) as nat
    }
}

pub open spec fn strip_plus(t: Seq<char>) -> Seq<char> {
    if t.len() > 0 && t[0] == '+' {
        t.drop_first()
    } else {
        t
    }
}

/// An unsigned decimal integer: an optional `+`, then at least one digit.
pub open spec fn unsigned_text(t: Seq<char>) -> Option<int> {
    let d = strip_plus(t);
    if d.len() > 0 && all_digits(d) {
        Some(digits_value(d) as int)
    } else {
        None
    }
}

/// A signed decimal integer: `-` and at least one digit, or an unsigned one.
pub open spec fn signed_text(t: Seq<char>) -> Option<int> {
    if t.len() > 0 && t[0] == '-' {
        let d = t.drop_first();
        if d.len() > 0 && all_digits(d) {
            Some(-(digits_value(d) as int))
        } else {
            None
        }
    } else {
        unsigned_text(t)
    }
}

/// The value, when it lies in `lo..=hi`.
pub open spec fn in_range(v: Option<int>, lo: int, hi: int) -> Option<int> {
    match v {
        Some(x) => if lo <= x <= hi {
            Some(x)
        } else {
            None
        },
        None => None,
    }
}

pub open spec fn digit_char(d: nat) -> char {
    (48 + d) as char
}

/// The shortest decimal representation of `n`.
pub open spec fn dec_text(n: nat) -> Seq<char>
    decreases n,
{
    if n < 10 {
        seq![digit_char(n)]
    } else {
        dec_text(n / 10).push(digit_char(n % 10))
    }
}

/// The decimal representation of `i`, with `-` before a negative one.
pub open spec fn signed_dec_text(i: int) -> Seq<char> {
    if i < 0 {
        seq!['-'] + dec_text((-i) as nat)
    } else {
        dec_text(i as nat)
    }
}

pub proof fn lemma_digits_value_prefix(t: Seq<char>, k: int)
    requires
        all_digits(t),
        0 <= k <= t.len(),
    ensures
        digits_value(t.take(k)) <= digits_value(t),
    decreases t.len(),
{
    if k < t.len() {
        let u = t.drop_last();
        assert(all_digits(u)) by {
            assert forall|i: int| 0 <= i < u.len() implies is_digit(#[trigger] u[i]) by {
                assert(u[i] == t[i]);
            }
        }
        lemma_digits_value_prefix(u, k);
        assert(u.take(k) =~= t.take(k));
        assert(is_digit(t[t.len() - 1]));
    } else {
        assert(t.take(k) =~= t);
    }
}

pub proof fn lemma_dec_text(n: nat)
    ensures
        dec_text(n).len() > 0,
        all_digits(dec_text(n)),
        digits_value(dec_text(n)) == n,
        dec_text(n)[0] != '+' && dec_text(n)[0] != '-',
    decreases n,
{
    if n >= 10 {
        lemma_dec_text(n / 10);
        let t = dec_text(n);
        assert(t.drop_last() =~= dec_text(n / 10));
        assert(digit_char(n % 10) as int == 48 + n % 10);
        assert(n == (n / 10) * 10 + n % 10);
        assert(t.last() == digit_char(n % 10));
        assert('0' as int == 48);
        assert(digits_value(t) == digits_value(t.drop_last()) * 10 + (n % 10));
        assert(all_digits(t)) by {
            assert forall|i: int| 0 <= i < t.len() implies is_digit(#[trigger] t[i]) by {
                if i < t.len() - 1 {
                    assert(t[i] == dec_text(n / 10)[i]);
                }
            }
        }
    } else {
        assert(digit_char(n) as int == 48 + n);
        assert('0' as int == 48);
        assert(dec_text(n).last() == digit_char(n));
        assert(dec_text(n).drop_last() =~= Seq::<char>::empty());
        assert(digits_value(Seq::<char>::empty()) == 0);
        assert(digits_value(dec_text(n)) == n);
    }
}

pub proof fn lemma_unsigned_round_trip(n: nat)
    ensures
        unsigned_text(dec_text(n)) == Some(n as int),
        signed_text(dec_text(n)) == Some(n as int),
{
    lemma_dec_text(n);
}

pub proof fn lemma_signed_round_trip(i: int)
    ensures
        signed_text(signed_dec_text(i)) == Some(i),
{
    if i < 0 {
        lemma_dec_text((-i) as nat);
        assert((seq!['-'] + dec_text((-i) as nat)).drop_first() =~= dec_text((-i) as nat));
    } else {
        lemma_dec_text(i as nat);
    }
}

/// Reads `line[a..b]` as a run of decimal digits, when it is one and its
/// value fits in a `u64`.
fn digits_at(line: &Vec<char>, a: usize, b: usize) -> (r: Option<u64>)
    requires
        a <= b <= line@.len(),
    ensures
        match r {
            Some(v) => b > a && all_digits(line@.subrange(a as int, b as int)) && digits_value(
                line@.subrange(a as int, b as int),
            ) == v,
            None => !(b > a && all_digits(line@.subrange(a as int, b as int))) || digits_value(
                line@.subrange(a as int, b as int),
            ) > u64::MAX,
        },
{
    if a == b {
        return None;
    }
    let ghost t = line@.subrange(a as int, b as int);
    let mut v: u64 = 0;
    let mut i = a;
    while i < b
        invariant
            a <= i <= b <= line@.len(),
            t == line@.subrange(a as int, b as int),
            all_digits(line@.subrange(a as int, i as int)),
            digits_value(line@.subrange(a as int, i as int)) == v,
        decreases b - i,
    {
        let c = line[i];
        if !('0' <= c && c <= '9') {
            assert(!is_digit(t[i - a]));
            return None;
        }
        let d = (c as u32 - '0' as u32) as u64;
        let ghost next = line@.subrange(a as int, i + 1);
        assert(next.drop_last() =~= line@.subrange(a as int, i as int));
        assert(all_digits(next)) by {
            assert forall|k: int| 0 <= k < next.len() implies is_digit(#[trigger] next[k]) by {
                if k < next.len() - 1 {
                    assert(next[k] == line@.subrange(a as int, i as int)[k]);
                }
            }
        }
        if v > (u64::MAX - d) / 10 {
            proof {
                assert(v * 10 + d > u64::MAX) by (nonlinear_arith)
                    requires
                        v > (u64::MAX - d) / 10,
                        d <= 9,
                ;
                if all_digits(t) {
                    lemma_digits_value_prefix(t, i + 1 - a);
                    assert(t.take(i + 1 - a) =~= next);
                }
            }
            return None;
        }
        assert(v * 10 + d <= u64::MAX) by (nonlinear_arith)
            requires
                v <= (u64::MAX - d) / 10,
                d <= 9,
        ;
        v = v * 10 + d;
        i = i + 1;
    }
    Some(v)
}

/// Reads `line[a..b]` as an unsigned integer no larger than `max`.
pub fn parse_unsigned(line: &Vec<char>, a: usize, b: usize, max: u64) -> (r: Option<u64>)
    requires
        a <= b <= line@.len(),
    ensures
        match r {
            Some(v) => in_range(unsigned_text(line@.subrange(a as int, b as int)), 0, max as int)
                == Some(v as int),
            None => in_range(unsigned_text(line@.subrange(a as int, b as int)), 0, max as int)
                is None,
        },
{
    let ghost t = line@.subrange(a as int, b as int);
    let start = if a < b && line[a] == '+' {
        a + 1
    } else {
        a
    };
    assert(strip_plus(t) =~= line@.subrange(start as int, b as int));
    match digits_at(line, start, b) {
        Some(v) => if v <= max {
            Some(v)
        } else {
            None
        },
        None => None,
    }
}

/// Reads `line[a..b]` as a signed integer in `min..=max`.
pub fn parse_signed(line: &Vec<char>, a: usize, b: usize, min: i64, max: i64) -> (r: Option<i64>)
    requires
        a <= b <= line@.len(),
        min <= 0 <= max,
    ensures
        match r {
            Some(v) => in_range(signed_text(line@.subrange(a as int, b as int)), min as int, max as int)
                == Some(v as int),
            None => in_range(signed_text(line@.subrange(a as int, b as int)), min as int, max as int)
                is None,
        },
{
    let ghost t = line@.subrange(a as int, b as int);
    if a < b && line[a] == '-' {
        assert(t.drop_first() =~= line@.subrange(a + 1, b as int));
        match digits_at(line, a + 1, b) {
            Some(m) => {
                let lim: u64 = if min == i64::MIN {
                    0x8000_0000_0000_0000u64
                } else {
                    (-min) as u64
                };
                if m > lim {
                    None
                } else if m == 0x8000_0000_0000_0000u64 {
                    Some(i64::MIN)
                } else {
                    Some(-(m as i64))
                }
            },
            None => None,
        }
    } else {
        match parse_unsigned(line, a, b, max as u64) {
            Some(v) => Some(v as i64),
            None => None,
        }
    }
}

/// Appends the decimal representation of `n`.
pub fn push_decimal(s: &mut String, n: u64)
    ensures
        final(s)@ == old(s)@ + dec_text(n as nat),
    decreases n,
{
    if n >= 10 {
        push_decimal(s, n / 10);
    }
    let d = (n % 10) as u8;
    s.push((48u8 + d) as char);
    if n >= 10 {
        assert(final(s)@ =~= old(s)@ + dec_text(n as nat));
    } else {
        assert(final(s)@ =~= old(s)@ + dec_text(n as nat));
    }
}

/// Appends the decimal representation of `i`, with `-` before a negative one.
pub fn push_signed(s: &mut String, i: i64)
    ensures
        final(s)@ == old(s)@ + signed_dec_text(i as int),
{
    if i < 0 {
        s.push('-');
        let m: u64 = if i == i64::MIN {
            0x8000_0000_0000_0000u64
        } else {
            (-i) as u64
        };
        push_decimal(s, m);
        assert(final(s)@ =~= old(s)@ + signed_dec_text(i as int));
    } else {
        push_decimal(s, i as u64);
    }
}

} // verus!
