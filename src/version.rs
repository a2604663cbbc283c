use vstd::prelude::*;

use crate::text::{chars_of, split_on, split_vec};

verus! {

/// What a check for a newer release found.
#[derive(Debug, Clone)]
pub struct UpdateInfo {
    pub current: String,
    pub latest: String,
    pub update_available: bool,
}

/// `s` without its leading `v` characters.
pub open spec fn strip_v(s: Seq<char>) -> Seq<char>
    decreases s.len(),
{
    if s.len() > 0 && s[0] == 'v' {
        strip_v(s.subrange(1, s.len() as int))
    } else {
        s
    }
}

/// The value of a run of decimal digits.
pub open spec fn digits_value(s: Seq<char>) -> nat
    decreases s.len(),
{
    if s.len() == 0 {
        0
    } else {
        digits_value(s.drop_last()) * 10 + ((s.last() as u32) - ('0' as u32)) as nat
    }
}

pub open spec fn all_digits(s: Seq<char>) -> bool {
    forall|i: int| 0 <= i < s.len() ==> '0' <= #[trigger] s[i] && s[i] <= '9'
}

/// The digits of a number as `u32` parsing reads them: an optional `+`, then one or
/// more digits.
pub open spec fn unsigned_digits(s: Seq<char>) -> Seq<char> {
    if s.len() > 0 && s[0] == '+' {
        s.subrange(1, s.len() as int)
    } else {
        s
    }
}

/// What parsing `s` as a `u32` gives, with 0 for anything that is not one.
pub open spec fn number_or_zero(s: Seq<char>) -> nat {
    let d = unsigned_digits(s);
    if d.len() > 0 && all_digits(d) && digits_value(d) <= u32::MAX {
        digits_value(d)
    } else {
        0
    }
}

/// Component `i` of a version text: `v` prefix dropped, split at dots, each part read
/// as a number, missing or malformed parts counting as 0.
pub open spec fn version_part(v: Seq<char>, i: int) -> nat {
    let parts = split_on(strip_v(v), '.');
    if i < parts.len() {
        number_or_zero(parts[i])
    } else {
        0
    }
}

/// `latest` is a strictly higher (major, minor, patch) than `current`.
pub open spec fn newer(current: Seq<char>, latest: Seq<char>) -> bool {
    let (c0, c1, c2) = (version_part(current, 0), version_part(current, 1), version_part(current, 2));
    let (l0, l1, l2) = (version_part(latest, 0), version_part(latest, 1), version_part(latest, 2));
    l0 > c0 || (l0 == c0 && (l1 > c1 || (l1 == c1 && l2 > c2)))
}

fn number_or_zero_exec(s: &Vec<char>) -> (r: u32)
    ensures
        r == number_or_zero(s@),
{
    let start: usize = if s.len() > 0 && s[0] == '+' { 1 } else { 0 };
    let ghost d = unsigned_digits(s@);
    assert(d =~= s@.subrange(start as int, s.len() as int));
    if start >= s.len() {
        return 0;
    }
    let mut acc: u64 = 0;
    let mut i: usize = start;
    while i < s.len()
        invariant
            start <= i <= s.len(),
            d == s@.subrange(start as int, s.len() as int),
            d == unsigned_digits(s@),
            all_digits(d.take(i - start)),
            acc as nat == digits_value(d.take(i - start)),
            acc <= u32::MAX,
        decreases s.len() - i,
    {
        let c = s[i];
        proof {
            assert(d.take(i + 1 - start).drop_last() =~= d.take(i - start));
            assert(d.take(i + 1 - start).last() == c);
        }
        if c < '0' || c > '9' {
            proof {
                assert(d[i - start] == c);
                assert(!all_digits(d));
            }
            return 0;
        }
        let digit = (c as u32 - '0' as u32) as u64;
        proof {
            let n = i + 1 - start;
            assert(digits_value(d.take(n)) == digits_value(d.take(i - start)) * 10 + digit);
            assert forall|k: int| 0 <= k < d.take(n).len() implies '0' <= #[trigger] d.take(n)[k] && d.take(n)[k] <= '9' by {
                if k < i - start {
                    assert(d.take(n)[k] == d.take(i - start)[k]);
                }
            }
        }
        if acc > (u32::MAX as u64 - digit) / 10 {
            proof {
                assert(acc * 10 + digit > u32::MAX) by (nonlinear_arith)
                    requires
                        acc > (u32::MAX as u64 - digit) / 10,
                        digit <= 9,
                ;
                lemma_digits_grow(d, (i + 1 - start) as int);
            }
            return 0;
        }
        acc = acc * 10 + digit;
        i = i + 1;
        proof {
            assert forall|k: int| 0 <= k < d.take(i - start).len() implies '0' <= #[trigger] d.take(i - start)[k] && d.take(i - start)[k] <= '9' by {
                if k < i - 1 - start {
                    assert(d.take(i - start)[k] == d.take(i - 1 - start)[k]);
                }
            }
        }
    }
    assert(d.take(s.len() - start) =~= d);
    acc as u32
}

/// Reading more digits never lowers the value.
proof fn lemma_digits_grow(d: Seq<char>, n: int)
    requires
        0 <= n <= d.len(),
        all_digits(d.take(n)),
    ensures
        digits_value(d.take(n)) <= digits_value(d) || !all_digits(d),
    decreases d.len() - n,
{
    if n < d.len() && all_digits(d) {
        assert(d.take(n + 1).drop_last() =~= d.take(n));
        assert(all_digits(d.take(n + 1)));
        lemma_digits_grow(d, n + 1);
    } else if n == d.len() {
        assert(d.take(n) =~= d);
    }
}

fn part_value(parts: &Vec<Vec<char>>, i: usize) -> (r: u32)
    ensures
        r == (if i < parts@.len() { number_or_zero(parts@[i as int]@) } else { 0 }),
{
    if i < parts.len() {
        number_or_zero_exec(&parts[i])
    } else {
        0
    }
}

/// Whether `latest` names a newer release than `current`, comparing
/// (major, minor, patch) in order.
pub fn is_newer_version(current: &str, latest: &str) -> (r: bool)
    ensures
        r == newer(current@, latest@),
{
    let cp = split_vec(&strip_v_exec(&chars_of(current)), '.');
    let lp = split_vec(&strip_v_exec(&chars_of(latest)), '.');
    let c0 = part_value(&cp, 0);
    let c1 = part_value(&cp, 1);
    let c2 = part_value(&cp, 2);
    let l0 = part_value(&lp, 0);
    let l1 = part_value(&lp, 1);
    let l2 = part_value(&lp, 2);
    l0 > c0 || (l0 == c0 && (l1 > c1 || (l1 == c1 && l2 > c2)))
}

fn strip_v_exec(s: &Vec<char>) -> (r: Vec<char>)
    ensures
        r@ == strip_v(s@),
{
    let mut i: usize = 0;
    assert(s@.subrange(0, s@.len() as int) =~= s@);
    while i < s.len() && s[i] == 'v'
        invariant
            i <= s@.len(),
            strip_v(s@) == strip_v(s@.subrange(i as int, s@.len() as int)),
        decreases s.len() - i,
    {
        assert(s@.subrange(i as int, s@.len() as int).subrange(1, s@.len() - i) =~= s@.subrange(i + 1, s@.len() as int));
        i = i + 1;
    }
    crate::text::slice_chars(s, i, s.len())
}

} // verus!
