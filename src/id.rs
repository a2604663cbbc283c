use vstd::prelude::*;

use crate::error::ShellTunnelError;
use crate::text::{chars_of, string_from_chars};

verus! {

/// The lowercase hexadecimal digit for `d < 16`.
pub open spec fn hex_char(d: u64) -> char {
    if d < 10 {
        (('0' as u64) + d) as char
    } else {
        (('a' as u64) + d - 10) as char
    }
}

/// The value of a hexadecimal digit (either case), if `c` is one.
pub open spec fn hex_value_of(c: char) -> Option<nat> {
    if '0' <= c && c <= '9' {
        Some(((c as u32) - ('0' as u32)) as nat)
    } else if 'a' <= c && c <= 'f' {
        Some(((c as u32) - ('a' as u32) + 10) as nat)
    } else if 'A' <= c && c <= 'F' {
        Some(((c as u32) - ('A' as u32) + 10) as nat)
    } else {
        None
    }
}

/// Every character of `s` is a hexadecimal digit.
pub open spec fn all_hex(s: Seq<char>) -> bool {
    forall|i: int| 0 <= i < s.len() ==> (#[trigger] hex_value_of(s[i])) is Some
}

/// The number that a sequence of hexadecimal digits denotes.
pub open spec fn hex_number(s: Seq<char>) -> nat
    decreases s.len(),
{
    if s.len() == 0 {
        0
    } else {
        hex_number(s.drop_last()) * 16 + hex_value_of(s.last())->0
    }
}

/// The eight lowest hexadecimal digits of `v`, most significant first.
pub open spec fn hex8(v: u64) -> Seq<char> {
    Seq::new(8, |i: int| hex_char((v >> ((28 - 4 * i) as u64)) & 15))
}

/// The canonical text of the id with raw value `v`.
pub open spec fn canonical_id(v: u64) -> Seq<char> {
    "sess-"@ + hex8(v)
}

/// `s` is `sess-` followed by exactly eight hexadecimal digits.
pub open spec fn is_id_text(s: Seq<char>) -> bool {
    &&& s.len() == 13
    &&& s.subrange(0, 5) == "sess-"@
    &&& all_hex(s.subrange(5, 13))
}

/// The raw value that a well-formed id text denotes.
pub open spec fn id_text_value(s: Seq<char>) -> nat {
    hex_number(s.subrange(5, 13))
}

/// A session identifier: a 64-bit value, compared and hashed by that value.
#[derive(Debug, Clone, Copy, PartialEq, Eq, Hash, Structural)]
pub struct SessionId(pub u64);

/// Hands out session ids from a counter that starts at 1 and only grows.
#[derive(Debug)]
pub struct IdCounter {
    next: u64,
}

impl IdCounter {
    pub closed spec fn next_value(&self) -> u64 {
        self.next
    }

    /// A counter whose first id is 1.
    pub fn new() -> (r: IdCounter)
        ensures
            r.next_value() == 1,
    {
        IdCounter { next: 1 }
    }
}

impl SessionId {
    pub open spec fn raw(&self) -> u64 {
        self.0
    }

    /// Takes the next id from the counter; `None` once the 64-bit space is spent.
    pub fn new(counter: &mut IdCounter) -> (r: Option<SessionId>)
        ensures
            old(counter).next_value() < u64::MAX ==> r == Some(SessionId(old(counter).next_value()))
                && final(counter).next_value() == old(counter).next_value() + 1,
            old(counter).next_value() == u64::MAX ==> r is None && final(counter).next_value()
                == old(counter).next_value(),
            final(counter).next_value() >= old(counter).next_value(),
    {
        if counter.next == u64::MAX {
            None
        } else {
            let id = SessionId(counter.next);
            counter.next = counter.next + 1;
            Some(id)
        }
    }

    pub fn as_u64(&self) -> (r: u64)
        ensures
            r == self.raw(),
    {
        self.0
    }

    pub fn from_raw(value: u64) -> (r: SessionId)
        ensures
            r.raw() == value,
    {
        SessionId(value)
    }

    /// The canonical text `sess-XXXXXXXX`: the eight lowest hexadecimal digits.
    pub fn to_string(&self) -> (r: String)
        ensures
            r@ == canonical_id(self.raw()),
    {
        let mut v: Vec<char> = Vec::new();
        v.push('s');
        v.push('e');
        v.push('s');
        v.push('s');
        v.push('-');
        proof {
            reveal_strlit("sess-");
            assert(v@ =~= "sess-"@);
        }
        let raw: u64 = self.0;
        let mut i: u64 = 0;
        while i < 8
            invariant
                i <= 8,
                v@.len() == 5 + i,
                v@.subrange(0, 5) == "sess-"@,
                raw == self.0,
                forall|k: int| 0 <= k < i ==> v@[5 + k] == hex8(raw)[k],
            decreases 8 - i,
        {
            let sh: u64 = 28 - 4 * i;
            let d: u64 = (raw >> sh) & 15;
            assert(d < 16) by (bit_vector)
                requires
                    d == (raw >> sh) & 15,
            ;
            let c: char = if d < 10 {
                ((48 + d) as u8) as char
            } else {
                ((97 + d - 10) as u8) as char
            };
            v.push(c);
            i = i + 1;
        }
        proof {
            reveal_strlit("sess-");
            assert(v@ =~= canonical_id(self.0));
        }
        string_from_chars(v)
    }

    /// Reads `sess-` followed by exactly eight hexadecimal digits; any other text
    /// fails with `SessionNotFound` naming it.
    pub fn parse(s: &str) -> (r: Result<SessionId, ShellTunnelError>)
        ensures
            is_id_text(s@) ==> r == Ok::<SessionId, ShellTunnelError>(
                SessionId(id_text_value(s@) as u64),
            ),
            !is_id_text(s@) ==> (r matches Err(ShellTunnelError::SessionNotFound(t)) && t@ == s@),
    {
        let c = chars_of(s);
        proof {
            reveal_strlit("sess-");
        }
        if c.len() != 13 || c[0] != 's' || c[1] != 'e' || c[2] != 's' || c[3] != 's' || c[4] != '-' {
            proof {
                if c@.len() == 13 {
                    assert(!(c@.subrange(0, 5) =~= "sess-"@)) by {
                        if c@.subrange(0, 5) =~= "sess-"@ {
                            assert(c@.subrange(0, 5)[0] == c@[0]);
                            assert(c@.subrange(0, 5)[1] == c@[1]);
                            assert(c@.subrange(0, 5)[2] == c@[2]);
                            assert(c@.subrange(0, 5)[3] == c@[3]);
                            assert(c@.subrange(0, 5)[4] == c@[4]);
                        }
                    }
                }
            }
            return Err(ShellTunnelError::SessionNotFound(String::from_str(s)));
        }
        assert(c@.subrange(0, 5) =~= "sess-"@);
        let ghost digits = c@.subrange(5, 13);
        let mut acc: u64 = 0;
        let mut i: usize = 5;
        while i < 13
            invariant
                5 <= i <= 13,
                c@.len() == 13,
                c@ == s@,
                digits == c@.subrange(5, 13),
                all_hex(digits.subrange(0, i - 5)),
                acc as nat == hex_number(digits.subrange(0, i - 5)),
                acc < pow16((i - 5) as nat),
            decreases 13 - i,
        {
            let ch = c[i];
            let d: u64 = if '0' <= ch && ch <= '9' {
                (ch as u64) - 48
            } else if 'a' <= ch && ch <= 'f' {
                (ch as u64) - 97 + 10
            } else if 'A' <= ch && ch <= 'F' {
                (ch as u64) - 65 + 10
            } else {
                proof {
                    assert(hex_value_of(ch) is None);
                    assert(digits[i - 5] == ch);
                    assert(!all_hex(digits));
                    assert(c@ == s@);
                    assert(!is_id_text(s@));
                }
                return Err(ShellTunnelError::SessionNotFound(String::from_str(s)));
            };
            proof {
                let pre = digits.subrange(0, i - 5);
                let post = digits.subrange(0, i - 4);
                assert(post.drop_last() =~= pre);
                assert(post.last() == ch);
                assert(forall|k: int| 0 <= k < post.len() ==> post[k] == (if k < pre.len() { pre[k] } else { ch }));
                lemma_pow16_step((i - 5) as nat);
                assert(acc * 16 + d < pow16((i - 4) as nat)) by (nonlinear_arith)
                    requires
                        acc < pow16((i - 5) as nat),
                        d < 16,
                        pow16((i - 4) as nat) == pow16((i - 5) as nat) * 16,
                ;
                lemma_pow16_bound((i - 4) as nat);
            }
            acc = acc * 16 + d;
            i = i + 1;
        }
        assert(digits.subrange(0, 8) =~= digits);
        Ok(SessionId(acc))
    }
}

impl core::str::FromStr for SessionId {
    type Err = ShellTunnelError;

    fn from_str(s: &str) -> core::result::Result<SessionId, ShellTunnelError> {
        SessionId::parse(s)
    }
}

/// Ids taken one after another from a counter that started at 1 grow strictly: the
/// earlier one is at least 1 and smaller than any later one.
pub proof fn lemma_ids_increase(c0: IdCounter, c1: IdCounter, c2: IdCounter, a: SessionId, b: SessionId)
    requires
        c0.next_value() >= 1,
        a.0 == c0.next_value(),
        c1.next_value() == c0.next_value() + 1,
        c1.next_value() <= c2.next_value(),
        b.0 == c2.next_value(),
    ensures
        1 <= a.0 < b.0,
        a != b,
{
}

/// 16 to the power `n`.
pub open spec fn pow16(n: nat) -> nat
    decreases n,
{
    if n == 0 {
        1
    } else {
        pow16((n - 1) as nat) * 16
    }
}

proof fn lemma_pow16_step(n: nat)
    ensures
        pow16(n + 1) == pow16(n) * 16,
{
}

proof fn lemma_pow16_bound(n: nat)
    requires
        n <= 8,
    ensures
        pow16(n) <= 0x1_0000_0000,
    decreases 8 - n,
{
    if n < 8 {
        lemma_pow16_bound(n + 1);
        assert(pow16(n + 1) == pow16(n) * 16);
    } else {
        reveal_with_fuel(pow16, 9);
    }
}

} // verus!

verus! {

proof fn lemma_hex_char_value(d: u64)
    requires
        d < 16,
    ensures
        hex_value_of(hex_char(d)) == Some(d as nat),
{
}

proof fn lemma_shift_digit(v: u64, sh: u64)
    requires
        sh <= 28,
    ensures
        (v >> (sh + 4)) * 16 + ((v >> sh) & 15) == v >> sh,
        (v >> sh) & 15 < 16,
{
    assert((v >> (sh + 4)) * 16 + ((v >> sh) & 15) == v >> sh) by (bit_vector)
        requires
            sh <= 28,
    ;
    assert((v >> sh) & 15 < 16) by (bit_vector);
}

proof fn lemma_hex8_prefix(v: u64, k: nat)
    requires
        v < 0x1_0000_0000,
        k <= 8,
    ensures
        all_hex(hex8(v).take(k as int)),
        hex_number(hex8(v).take(k as int)) == (v >> ((32 - 4 * k) as u64)) as nat,
    decreases k,
{
    let s = hex8(v);
    if k == 0 {
        assert(s.take(0) =~= Seq::<char>::empty());
        assert(v >> 32u64 == 0) by (bit_vector)
            requires
                v < 0x1_0000_0000,
        ;
    } else {
        let j = (k - 1) as nat;
        lemma_hex8_prefix(v, j);
        let sh: u64 = (28 - 4 * j) as u64;
        lemma_shift_digit(v, sh);
        lemma_hex_char_value((v >> sh) & 15);
        assert(s.take(k as int).drop_last() =~= s.take(j as int));
        assert(s.take(k as int).last() == hex_char((v >> sh) & 15));
        assert(sh + 4 == (32 - 4 * j) as u64);
        assert forall|i: int| 0 <= i < k implies (#[trigger] hex_value_of(s.take(k as int)[i])) is Some by {
            if i < j {
                assert(s.take(k as int)[i] == s.take(j as int)[i]);
            }
        }
    }
}

/// The canonical text of any id that fits in 32 bits parses back to that id.
pub proof fn lemma_id_round_trip(v: u64)
    requires
        v < 0x1_0000_0000,
    ensures
        is_id_text(canonical_id(v)),
        id_text_value(canonical_id(v)) == v,
{
    reveal_strlit("sess-");
    let t = canonical_id(v);
    lemma_hex8_prefix(v, 8);
    assert(hex8(v).take(8) =~= hex8(v));
    assert(t.subrange(0, 5) =~= "sess-"@);
    assert(t.subrange(5, 13) =~= hex8(v));
    assert(v >> 0u64 == v) by (bit_vector);
}

} // verus!
