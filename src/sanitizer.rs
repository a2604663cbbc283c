use vstd::prelude::*;

use crate::text::{lossy_string, utf8_lossy};
use vstd::string::StringSliceAdditionalSpecFns;

verus! {

/// Where the escape-sequence parser stands.
#[derive(Debug, Clone, Copy, PartialEq, Eq, Structural)]
pub enum ParseState {
    Ground,
    /// After the lead byte 0xC2 of a two-byte UTF-8 character.
    Utf8Lead,
    Escape,
    EscapeIntermediate,
    Csi,
    Osc,
    Dcs,
    OtherString,
}

/// Bytes that cancel any sequence (CAN, SUB).
pub open spec fn is_cancel(x: u8) -> bool {
    x == 0x18 || x == 0x1a
}

/// The three whitespace controls that text keeps.
pub open spec fn is_kept_control(x: u8) -> bool {
    x == 0x09 || x == 0x0a || x == 0x0d
}

/// The replacement character U+FFFD in UTF-8.
pub open spec fn replacement() -> Seq<u8> {
    seq![0xEFu8, 0xBFu8, 0xBDu8]
}

/// The state after byte `x` met in the ground state.
pub open spec fn ground_next(x: u8) -> ParseState {
    if x == 0x1b {
        ParseState::Escape
    } else if x == 0xc2 {
        ParseState::Utf8Lead
    } else {
        ParseState::Ground
    }
}

/// What byte `x` adds to the text in the ground state: printable bytes and the
/// whitespace controls; a 0xC2 lead waits for the next byte.
pub open spec fn ground_out(x: u8) -> Seq<u8> {
    if x == 0xc2 {
        Seq::empty()
    } else if (x >= 0x20 && x != 0x7f) || is_kept_control(x) {
        seq![x]
    } else {
        Seq::empty()
    }
}

/// The parser's next state after byte `x`.
pub open spec fn next_state(st: ParseState, x: u8) -> ParseState {
    match st {
        ParseState::Ground => ground_next(x),
        ParseState::Utf8Lead => if 0x80 <= x && x <= 0xbf {
            ParseState::Ground
        } else {
            ground_next(x)
        },
        _ => if x == 0x1b {
            ParseState::Escape
        } else if is_cancel(x) {
            ParseState::Ground
        } else {
            match st {
                ParseState::Escape => if x == 0x5b {
                    ParseState::Csi
                } else if x == 0x5d {
                    ParseState::Osc
                } else if x == 0x50 {
                    ParseState::Dcs
                } else if x == 0x58 || x == 0x5e || x == 0x5f {
                    ParseState::OtherString
                } else if 0x20 <= x && x <= 0x2f {
                    ParseState::EscapeIntermediate
                } else if 0x30 <= x && x <= 0x7e {
                    ParseState::Ground
                } else {
                    ParseState::Escape
                },
                ParseState::EscapeIntermediate => if 0x30 <= x && x <= 0x7e {
                    ParseState::Ground
                } else {
                    ParseState::EscapeIntermediate
                },
                ParseState::Csi => if 0x40 <= x && x <= 0x7e {
                    ParseState::Ground
                } else {
                    ParseState::Csi
                },
                ParseState::Osc => if x == 0x07 {
                    ParseState::Ground
                } else {
                    ParseState::Osc
                },
                _ => st,
            }
        },
    }
}

/// What byte `x`, met in state `st`, adds to the text. In the ground state: printable
/// bytes and whitespace controls. After a 0xC2 lead: nothing for a C1 control
/// (0x80..0x9F), the two-byte character for 0xA0..0xBF, and otherwise a replacement
/// character for the stray lead followed by what `x` adds in the ground state. Escape
/// and control sequences pass on the whitespace controls; strings add nothing.
pub open spec fn step_out(st: ParseState, x: u8) -> Seq<u8> {
    match st {
        ParseState::Ground => ground_out(x),
        ParseState::Utf8Lead => if 0x80 <= x && x <= 0x9f {
            Seq::empty()
        } else if 0xa0 <= x && x <= 0xbf {
            seq![0xc2u8, x]
        } else {
            replacement() + ground_out(x)
        },
        ParseState::Escape | ParseState::EscapeIntermediate | ParseState::Csi => if is_kept_control(x) {
            seq![x]
        } else {
            Seq::empty()
        },
        _ => Seq::empty(),
    }
}

/// The parser's state after the bytes `b`, from the ground state.
pub open spec fn state_after(b: Seq<u8>) -> ParseState
    decreases b.len(),
{
    if b.len() == 0 {
        ParseState::Ground
    } else {
        next_state(state_after(b.drop_last()), b.last())
    }
}

/// What the bytes `b` add to the text, step by step.
pub open spec fn text_bytes(b: Seq<u8>) -> Seq<u8>
    decreases b.len(),
{
    if b.len() == 0 {
        Seq::empty()
    } else {
        text_bytes(b.drop_last()) + step_out(state_after(b.drop_last()), b.last())
    }
}

/// What an unfinished state leaves at the end: a lone 0xC2 lead becomes a replacement
/// character.
pub open spec fn flush(st: ParseState) -> Seq<u8> {
    if st == ParseState::Utf8Lead {
        replacement()
    } else {
        Seq::empty()
    }
}

/// The text bytes of `b`.
pub open spec fn sanitized(b: Seq<u8>) -> Seq<u8> {
    text_bytes(b) + flush(state_after(b))
}

fn step(st: ParseState, x: u8) -> (r: ParseState)
    ensures
        r == next_state(st, x),
{
    let gn = if x == 0x1b {
        ParseState::Escape
    } else if x == 0xc2 {
        ParseState::Utf8Lead
    } else {
        ParseState::Ground
    };
    match st {
        ParseState::Ground => gn,
        ParseState::Utf8Lead => if 0x80 <= x && x <= 0xbf {
            ParseState::Ground
        } else {
            gn
        },
        _ => if x == 0x1b {
            ParseState::Escape
        } else if x == 0x18 || x == 0x1a {
            ParseState::Ground
        } else {
            match st {
                ParseState::Escape => if x == 0x5b {
                    ParseState::Csi
                } else if x == 0x5d {
                    ParseState::Osc
                } else if x == 0x50 {
                    ParseState::Dcs
                } else if x == 0x58 || x == 0x5e || x == 0x5f {
                    ParseState::OtherString
                } else if 0x20 <= x && x <= 0x2f {
                    ParseState::EscapeIntermediate
                } else if 0x30 <= x && x <= 0x7e {
                    ParseState::Ground
                } else {
                    ParseState::Escape
                },
                ParseState::EscapeIntermediate => if 0x30 <= x && x <= 0x7e {
                    ParseState::Ground
                } else {
                    ParseState::EscapeIntermediate
                },
                ParseState::Csi => if 0x40 <= x && x <= 0x7e {
                    ParseState::Ground
                } else {
                    ParseState::Csi
                },
                ParseState::Osc => if x == 0x07 {
                    ParseState::Ground
                } else {
                    ParseState::Osc
                },
                _ => st,
            }
        },
    }
}

fn push_ground(out: &mut Vec<u8>, x: u8)
    ensures
        final(out)@ == old(out)@ + ground_out(x),
{
    if x != 0xc2 && ((x >= 0x20 && x != 0x7f) || x == 0x09 || x == 0x0a || x == 0x0d) {
        out.push(x);
        assert(final(out)@ =~= old(out)@ + ground_out(x));
    } else {
        assert(old(out)@ + ground_out(x) =~= old(out)@);
    }
}

fn push_replacement(out: &mut Vec<u8>)
    ensures
        final(out)@ == old(out)@ + replacement(),
{
    out.push(0xef);
    out.push(0xbf);
    out.push(0xbd);
    assert(final(out)@ =~= old(out)@ + replacement());
}

fn emit(out: &mut Vec<u8>, st: ParseState, x: u8)
    ensures
        final(out)@ == old(out)@ + step_out(st, x),
{
    let kept = x == 0x09 || x == 0x0a || x == 0x0d;
    match st {
        ParseState::Ground => push_ground(out, x),
        ParseState::Utf8Lead => if 0x80 <= x && x <= 0x9f {
            assert(old(out)@ + step_out(st, x) =~= old(out)@);
        } else if 0xa0 <= x && x <= 0xbf {
            out.push(0xc2);
            out.push(x);
            assert(final(out)@ =~= old(out)@ + step_out(st, x));
        } else {
            push_replacement(out);
            push_ground(out, x);
            assert(final(out)@ =~= old(out)@ + step_out(st, x));
        },
        ParseState::Escape | ParseState::EscapeIntermediate | ParseState::Csi => if kept {
            out.push(x);
            assert(final(out)@ =~= old(out)@ + step_out(st, x));
        } else {
            assert(old(out)@ + step_out(st, x) =~= old(out)@);
        },
        _ => {
            assert(old(out)@ + step_out(st, x) =~= old(out)@);
        },
    }
}

/// Turns terminal output into plain text.
pub struct OutputSanitizer;

impl OutputSanitizer {
    /// The text bytes of `input`: escape, control, operating-system, and device-control
    /// sequences removed, every control byte but tab, newline, and carriage return
    /// removed, and C1 controls in their UTF-8 form removed.
    pub fn strip_ansi_bytes(input: &[u8]) -> (r: Vec<u8>)
        ensures
            r@ == sanitized(input@),
    {
        let mut out: Vec<u8> = Vec::new();
        let mut st = ParseState::Ground;
        let mut i: usize = 0;
        while i < input.len()
            invariant
                i <= input@.len(),
                st == state_after(input@.take(i as int)),
                out@ == text_bytes(input@.take(i as int)),
            decreases input.len() - i,
        {
            let x = input[i];
            proof {
                assert(input@.take(i + 1).drop_last() =~= input@.take(i as int));
                assert(input@.take(i + 1).last() == x);
            }
            emit(&mut out, st, x);
            st = step(st, x);
            i = i + 1;
        }
        assert(input@.take(input@.len() as int) =~= input@);
        match st {
            ParseState::Utf8Lead => push_replacement(&mut out),
            _ => {
                assert(out@ + flush(st) =~= out@);
            },
        }
        out
    }

    /// The plain text of `input`; bytes that are not UTF-8 become replacement characters.
    /// ASCII input gives exactly its text bytes as characters.
    pub fn strip_ansi(input: &[u8]) -> (r: String)
        ensures
            r@ == utf8_lossy(sanitized(input@)),
            (forall|i: int| 0 <= i < input@.len() ==> input@[i] < 0x80) ==> r@ == sanitized(input@).map_values(
                |x: u8| x as char,
            ),
    {
        let bytes = OutputSanitizer::strip_ansi_bytes(input);
        proof {
            lemma_ascii_stays_ascii(input@);
        }
        lossy_string(bytes.as_slice())
    }

    /// The plain text of a string.
    pub fn strip_ansi_str(input: &str) -> (r: String)
        ensures
            r@ == utf8_lossy(sanitized(input.spec_bytes())),
    {
        OutputSanitizer::strip_ansi(input.as_bytes())
    }
}

/// Every byte is printable (0x20 and up, but not DEL) or one of tab, newline, and
/// carriage return.
pub open spec fn no_controls(s: Seq<u8>) -> bool {
    forall|k: int| 0 <= k < s.len() ==> ((#[trigger] s[k]) >= 0x20 && s[k] != 0x7f) || is_kept_control(s[k])
}

/// Every 0xC2 byte is followed by a byte in 0xA0..0xBF: no C1 control (U+0080..U+009F)
/// is encoded.
pub open spec fn no_c1(s: Seq<u8>) -> bool {
    forall|k: int| 0 <= k < s.len() && #[trigger] s[k] == 0xc2 ==> k + 1 < s.len() && 0xa0 <= s[k + 1]
        && s[k + 1] <= 0xbf
}

proof fn lemma_concat_clean(a: Seq<u8>, b: Seq<u8>)
    requires
        no_controls(a),
        no_controls(b),
        no_c1(a),
        no_c1(b),
    ensures
        no_controls(a + b),
        no_c1(a + b),
{
    let c = a + b;
    assert forall|k: int| 0 <= k < c.len() implies ((#[trigger] c[k]) >= 0x20 && c[k] != 0x7f) || is_kept_control(c[k]) by {
        if k < a.len() {
            assert(c[k] == a[k]);
        } else {
            assert(c[k] == b[k - a.len()]);
        }
    }
    assert forall|k: int| 0 <= k < c.len() && #[trigger] c[k] == 0xc2 implies k + 1 < c.len() && 0xa0 <= c[k + 1]
        && c[k + 1] <= 0xbf by {
        if k < a.len() {
            assert(c[k] == a[k]);
            assert(c[k + 1] == a[k + 1]);
        } else {
            assert(c[k] == b[k - a.len()]);
            assert(c[k + 1] == b[k + 1 - a.len()]);
        }
    }
}

proof fn lemma_step_clean(st: ParseState, x: u8)
    ensures
        no_controls(step_out(st, x)),
        no_c1(step_out(st, x)),
{
    let g = ground_out(x);
    assert(no_controls(g) && no_c1(g));
    assert(no_controls(replacement()) && no_c1(replacement()));
    lemma_concat_clean(replacement(), g);
    let two = seq![0xc2u8, x];
    if 0xa0 <= x && x <= 0xbf {
        assert(no_controls(two));
        assert forall|k: int| 0 <= k < two.len() && #[trigger] two[k] == 0xc2 implies k + 1 < two.len()
            && 0xa0 <= two[k + 1] && two[k + 1] <= 0xbf by {
            if k == 1 {
                assert(two[1] == x);
            }
        }
    }
}

proof fn lemma_text_clean(b: Seq<u8>)
    ensures
        no_controls(text_bytes(b)),
        no_c1(text_bytes(b)),
    decreases b.len(),
{
    if b.len() > 0 {
        lemma_text_clean(b.drop_last());
        lemma_step_clean(state_after(b.drop_last()), b.last());
        lemma_concat_clean(text_bytes(b.drop_last()), step_out(state_after(b.drop_last()), b.last()));
    }
}

/// The text holds no control byte but tab, newline, and carriage return (so no escape
/// byte and no DEL), and no C1 control in its UTF-8 form.
pub proof fn lemma_no_controls(b: Seq<u8>)
    ensures
        no_controls(sanitized(b)),
        no_c1(sanitized(b)),
{
    lemma_text_clean(b);
    assert(no_controls(replacement()) && no_c1(replacement()));
    assert(no_controls(Seq::<u8>::empty()) && no_c1(Seq::<u8>::empty()));
    lemma_concat_clean(text_bytes(b), flush(state_after(b)));
}

/// A byte that is part of a sequence (the escape that opens it in the ground state, or
/// any byte met while the parser is inside one) adds nothing to the text, save the
/// whitespace controls that escape and control sequences pass on.
pub proof fn lemma_sequence_bytes_dropped(b: Seq<u8>, i: int)
    requires
        0 <= i < b.len(),
        (b[i] == 0x1b && state_after(b.take(i)) == ParseState::Ground) || (state_after(b.take(i))
            != ParseState::Ground && state_after(b.take(i)) != ParseState::Utf8Lead),
        !is_kept_control(b[i]),
    ensures
        text_bytes(b.take(i + 1)) == text_bytes(b.take(i)),
{
    assert(b.take(i + 1).drop_last() =~= b.take(i));
    assert(text_bytes(b.take(i)) + Seq::<u8>::empty() =~= text_bytes(b.take(i)));
}

/// ASCII input never leaves the ground or sequence states for a UTF-8 lead, and gives
/// ASCII text.
proof fn lemma_ascii_stays_ascii(b: Seq<u8>)
    ensures
        (forall|i: int| 0 <= i < b.len() ==> b[i] < 0x80) ==> state_after(b) != ParseState::Utf8Lead
            && (forall|k: int| 0 <= k < sanitized(b).len() ==> #[trigger] sanitized(b)[k] < 0x80),
    decreases b.len(),
{
    if b.len() > 0 {
        lemma_ascii_stays_ascii(b.drop_last());
        if forall|i: int| 0 <= i < b.len() ==> b[i] < 0x80 {
            let p = b.drop_last();
            assert(forall|i: int| 0 <= i < p.len() ==> p[i] == b[i]);
            let o = step_out(state_after(p), b.last());
            assert(forall|k: int| 0 <= k < o.len() ==> o[k] < 0x80);
            let t = text_bytes(b);
            assert(flush(state_after(p)) =~= Seq::<u8>::empty());
            assert(sanitized(p) =~= text_bytes(p));
            assert(flush(state_after(b)) =~= Seq::<u8>::empty());
            assert forall|k: int| 0 <= k < sanitized(b).len() implies #[trigger] sanitized(b)[k] < 0x80 by {
                assert(sanitized(b) =~= text_bytes(p) + o);
                if k < text_bytes(p).len() {
                    assert(sanitized(p)[k] < 0x80);
                }
            }
        }
    }
}

/// The state after the bytes `b`, starting from `st`.
pub open spec fn run_state(st: ParseState, b: Seq<u8>) -> ParseState
    decreases b.len(),
{
    if b.len() == 0 {
        st
    } else {
        next_state(run_state(st, b.drop_last()), b.last())
    }
}

/// What the bytes `b` add to the text, starting from `st`.
pub open spec fn run_out(st: ParseState, b: Seq<u8>) -> Seq<u8>
    decreases b.len(),
{
    if b.len() == 0 {
        Seq::empty()
    } else {
        run_out(st, b.drop_last()) + step_out(run_state(st, b.drop_last()), b.last())
    }
}

proof fn lemma_run_split(a: Seq<u8>, b: Seq<u8>)
    ensures
        state_after(a + b) == run_state(state_after(a), b),
        text_bytes(a + b) == text_bytes(a) + run_out(state_after(a), b),
    decreases b.len(),
{
    if b.len() == 0 {
        assert(a + b =~= a);
        assert(text_bytes(a) + Seq::<u8>::empty() =~= text_bytes(a));
    } else {
        lemma_run_split(a, b.drop_last());
        assert((a + b).drop_last() =~= a + b.drop_last());
        assert((a + b).last() == b.last());
        assert(text_bytes(a + b) =~= text_bytes(a) + run_out(state_after(a), b));
    }
}

proof fn lemma_run_concat(st: ParseState, a: Seq<u8>, b: Seq<u8>)
    ensures
        run_state(st, a + b) == run_state(run_state(st, a), b),
        run_out(st, a + b) == run_out(st, a) + run_out(run_state(st, a), b),
    decreases b.len(),
{
    if b.len() == 0 {
        assert(a + b =~= a);
        assert(run_out(st, a) + Seq::<u8>::empty() =~= run_out(st, a));
    } else {
        lemma_run_concat(st, a, b.drop_last());
        assert((a + b).drop_last() =~= a + b.drop_last());
        assert((a + b).last() == b.last());
        assert(run_out(st, a + b) =~= run_out(st, a) + run_out(run_state(st, a), b));
    }
}

/// Text that the sanitizer keeps as it is: no control byte but tab, newline, and
/// carriage return, and no C1 control.
pub open spec fn clean_text(t: Seq<u8>) -> bool {
    no_controls(t) && no_c1(t)
}

proof fn lemma_clean_run(t: Seq<u8>)
    requires
        clean_text(t),
    ensures
        run_state(ParseState::Ground, t) == ParseState::Ground,
        run_out(ParseState::Ground, t) == t,
{
    lemma_clean_prefix(t, t.len() as int);
    assert(t.take(t.len() as int) =~= t);
}

proof fn lemma_clean_prefix(t: Seq<u8>, n: int)
    requires
        clean_text(t),
        0 <= n <= t.len(),
    ensures
        n > 0 && t[n - 1] == 0xc2 ==> run_state(ParseState::Ground, t.take(n)) == ParseState::Utf8Lead
            && run_out(ParseState::Ground, t.take(n)) == t.take(n - 1),
        !(n > 0 && t[n - 1] == 0xc2) ==> run_state(ParseState::Ground, t.take(n)) == ParseState::Ground
            && run_out(ParseState::Ground, t.take(n)) == t.take(n),
    decreases n,
{
    if n > 0 {
        lemma_clean_prefix(t, n - 1);
        let p = t.take(n);
        assert(p.drop_last() =~= t.take(n - 1));
        assert(p.last() == t[n - 1]);
        let x = t[n - 1];
        assert((x >= 0x20 && x != 0x7f) || is_kept_control(x));
        if n > 1 && t[n - 2] == 0xc2 {
            assert(0xa0 <= x && x <= 0xbf);
            assert(t.take(n - 2).push(0xc2u8).push(x) =~= p);
            assert(t.take(n - 1) =~= t.take(n - 2).push(0xc2u8));
            assert(run_out(ParseState::Ground, p) =~= t.take(n - 2) + seq![0xc2u8, x]);
            assert(p =~= t.take(n - 2) + seq![0xc2u8, x]);
        } else {
            if x == 0xc2 {
                assert(run_out(ParseState::Ground, p) =~= t.take(n - 1));
            } else {
                assert(run_out(ParseState::Ground, p) =~= t.take(n - 1).push(x));
                assert(p =~= t.take(n - 1).push(x));
            }
        }
    } else {
        assert(t.take(0) =~= Seq::<u8>::empty());
    }
}

/// A complete control sequence: `ESC [`, parameter and intermediate bytes, a final byte.
pub open spec fn is_csi(e: Seq<u8>) -> bool {
    &&& e.len() >= 3
    &&& e[0] == 0x1b && e[1] == 0x5b
    &&& forall|i: int| 2 <= i < e.len() - 1 ==> 0x20 <= #[trigger] e[i] && e[i] <= 0x3f
    &&& 0x40 <= e.last() && e.last() <= 0x7e
}

/// A string body: no BEL, ESC, CAN, or SUB.
pub open spec fn string_body(b: Seq<u8>) -> bool {
    forall|i: int| 0 <= i < b.len() ==> #[trigger] b[i] != 0x07 && b[i] != 0x1b && b[i] != 0x18 && b[i] != 0x1a
}

/// A complete operating-system command: `ESC ]`, a body, then BEL or `ESC \`.
pub open spec fn is_osc(e: Seq<u8>) -> bool {
    exists|body: Seq<u8>| string_body(body) && (e == seq![0x1bu8, 0x5du8] + body + seq![0x07u8] || e == seq![
        0x1bu8,
        0x5du8,
    ] + body + seq![0x1bu8, 0x5cu8])
}

/// A complete device-control string: `ESC P`, a body, then `ESC \`.
pub open spec fn is_dcs(e: Seq<u8>) -> bool {
    exists|body: Seq<u8>| string_body(body) && e == seq![0x1bu8, 0x50u8] + body + seq![0x1bu8, 0x5cu8]
}

/// A complete plain escape sequence: `ESC`, intermediate bytes, a final byte (which,
/// right after the escape, opens none of the other kinds).
pub open spec fn is_plain_esc(e: Seq<u8>) -> bool {
    &&& e.len() >= 2
    &&& e[0] == 0x1b
    &&& forall|i: int| 1 <= i < e.len() - 1 ==> 0x20 <= #[trigger] e[i] && e[i] <= 0x2f
    &&& 0x30 <= e.last() && e.last() <= 0x7e
    &&& e.len() == 2 ==> e.last() != 0x5b && e.last() != 0x5d && e.last() != 0x50 && e.last() != 0x58
        && e.last() != 0x5e && e.last() != 0x5f
}

/// One complete escape sequence of any kind.
pub open spec fn is_sequence(e: Seq<u8>) -> bool {
    is_csi(e) || is_osc(e) || is_dcs(e) || is_plain_esc(e)
}

/// Bytes that keep the parser in `st` and add nothing.
proof fn lemma_stay(st: ParseState, b: Seq<u8>)
    requires
        forall|i: int| 0 <= i < b.len() ==> next_state(st, #[trigger] b[i]) == st && step_out(st, b[i]) == Seq::<u8>::empty(),
    ensures
        run_state(st, b) == st,
        run_out(st, b) == Seq::<u8>::empty(),
    decreases b.len(),
{
    if b.len() > 0 {
        let p = b.drop_last();
        assert forall|i: int| 0 <= i < p.len() implies next_state(st, #[trigger] p[i]) == st && step_out(st, p[i]) == Seq::<u8>::empty() by {
            assert(p[i] == b[i]);
        }
        lemma_stay(st, p);
        assert(b.last() == b[b.len() - 1]);
        assert(run_out(st, b) =~= Seq::<u8>::empty());
    }
}

proof fn lemma_one(st: ParseState, x: u8)
    ensures
        run_state(st, seq![x]) == next_state(st, x),
        run_out(st, seq![x]) == step_out(st, x),
{
    let s = seq![x];
    assert(s.drop_last() =~= Seq::<u8>::empty());
    assert(s.last() == x);
    assert(run_state(st, s.drop_last()) == st);
    assert(run_out(st, s.drop_last()) == Seq::<u8>::empty());
    assert(Seq::<u8>::empty() + step_out(st, x) =~= step_out(st, x));
}

proof fn lemma_string_run(st: ParseState, body: Seq<u8>)
    requires
        st == ParseState::Osc || st == ParseState::Dcs,
        string_body(body),
    ensures
        run_state(st, body) == st,
        run_out(st, body) == Seq::<u8>::empty(),
{
    assert forall|i: int| 0 <= i < body.len() implies next_state(st, #[trigger] body[i]) == st && step_out(st, body[i])
        == Seq::<u8>::empty() by {
        assert(body[i] != 0x07 && body[i] != 0x1b && body[i] != 0x18 && body[i] != 0x1a);
    }
    lemma_stay(st, body);
}

/// A complete sequence met in the ground state adds nothing and ends in the ground state.
proof fn lemma_sequence_run(e: Seq<u8>)
    requires
        is_sequence(e),
    ensures
        run_state(ParseState::Ground, e) == ParseState::Ground,
        run_out(ParseState::Ground, e) == Seq::<u8>::empty(),
{
    let g = ParseState::Ground;
    let empty = Seq::<u8>::empty();
    if is_csi(e) {
        let head = e.take(2);
        let mid = e.subrange(2, e.len() - 1);
        let last = seq![e.last()];
        assert(e =~= head + mid + last);
        assert(head =~= seq![0x1bu8].push(0x5bu8));
        lemma_one(g, 0x1b);
        lemma_run_concat(g, seq![0x1bu8], seq![0x5bu8]);
        lemma_one(ParseState::Escape, 0x5b);
        assert(seq![0x1bu8] + seq![0x5bu8] =~= head);
        assert forall|i: int| 0 <= i < mid.len() implies next_state(ParseState::Csi, #[trigger] mid[i]) == ParseState::Csi
            && step_out(ParseState::Csi, mid[i]) == empty by {
            assert(mid[i] == e[i + 2]);
        }
        lemma_stay(ParseState::Csi, mid);
        lemma_run_concat(g, head, mid);
        lemma_run_concat(g, head + mid, last);
        lemma_one(ParseState::Csi, e.last());
        assert(run_out(g, e) =~= empty);
    } else if is_osc(e) || is_dcs(e) {
        let body = choose|body: Seq<u8>| string_body(body) && (
            (is_osc(e) && (e == seq![0x1bu8, 0x5du8] + body + seq![0x07u8] || e == seq![0x1bu8, 0x5du8] + body + seq![0x1bu8, 0x5cu8]))
            || (!is_osc(e) && e == seq![0x1bu8, 0x50u8] + body + seq![0x1bu8, 0x5cu8]));
        let opener: u8 = if is_osc(e) { 0x5d } else { 0x50 };
        let inner = if is_osc(e) { ParseState::Osc } else { ParseState::Dcs };
        let head = seq![0x1bu8, opener];
        assert(head =~= seq![0x1bu8] + seq![opener]);
        lemma_one(g, 0x1b);
        lemma_one(ParseState::Escape, opener);
        lemma_run_concat(g, seq![0x1bu8], seq![opener]);
        lemma_string_run(inner, body);
        lemma_run_concat(g, head, body);
        let st_end = seq![0x1bu8, 0x5cu8];
        assert(st_end =~= seq![0x1bu8] + seq![0x5cu8]);
        lemma_one(inner, 0x1b);
        lemma_one(ParseState::Escape, 0x5c);
        lemma_run_concat(inner, seq![0x1bu8], seq![0x5cu8]);
        lemma_one(inner, 0x07);
        if e == head + body + seq![0x07u8] {
            lemma_run_concat(g, head + body, seq![0x07u8]);
            assert(run_out(g, e) =~= empty);
        } else {
            assert(e == head + body + st_end);
            lemma_run_concat(g, head + body, st_end);
            assert(run_out(g, e) =~= empty);
        }
    } else {
        let mid = e.subrange(1, e.len() - 1);
        let last = seq![e.last()];
        assert(e =~= seq![0x1bu8] + mid + last);
        lemma_one(g, 0x1b);
        lemma_one(ParseState::Escape, e.last());
        lemma_one(ParseState::EscapeIntermediate, e.last());
        lemma_run_concat(g, seq![0x1bu8], mid);
        lemma_run_concat(g, seq![0x1bu8] + mid, last);
        if mid.len() == 0 {
            assert(seq![0x1bu8] + mid =~= seq![0x1bu8]);
            lemma_stay(ParseState::Escape, mid);
        } else {
            let first = seq![mid[0]];
            let rest = mid.subrange(1, mid.len() as int);
            assert(mid =~= first + rest);
            assert(mid[0] == e[1]);
            lemma_one(ParseState::Escape, mid[0]);
            assert forall|i: int| 0 <= i < rest.len() implies next_state(ParseState::EscapeIntermediate, #[trigger] rest[i])
                == ParseState::EscapeIntermediate && step_out(ParseState::EscapeIntermediate, rest[i]) == empty by {
                assert(rest[i] == e[i + 2]);
            }
            lemma_stay(ParseState::EscapeIntermediate, rest);
            lemma_run_concat(ParseState::Escape, first, rest);
        }
        assert(run_out(g, e) =~= empty);
    }
}

/// Clean text is kept as it is.
pub proof fn lemma_clean_text_kept(t: Seq<u8>)
    requires
        clean_text(t),
    ensures
        sanitized(t) == t,
        state_after(t) == ParseState::Ground,
{
    lemma_clean_run(t);
    lemma_run_split(Seq::<u8>::empty(), t);
    assert(Seq::<u8>::empty() + t =~= t);
    assert(t + Seq::<u8>::empty() =~= t);
}

/// After input that leaves the parser in the ground state, a complete escape sequence
/// followed by clean text adds exactly that text: no byte of the sequence reaches the
/// output, and every byte of the text does, in order.
pub proof fn lemma_sequence_then_text(a: Seq<u8>, e: Seq<u8>, t: Seq<u8>)
    requires
        state_after(a) == ParseState::Ground,
        is_sequence(e),
        clean_text(t),
    ensures
        state_after(a + e + t) == ParseState::Ground,
        text_bytes(a + e + t) == text_bytes(a) + t,
        sanitized(a + e + t) == text_bytes(a) + t,
{
    lemma_sequence_run(e);
    lemma_clean_run(t);
    lemma_run_concat(ParseState::Ground, e, t);
    lemma_run_split(a, e + t);
    assert(a + e + t =~= a + (e + t));
    assert(Seq::<u8>::empty() + t =~= t);
    assert(text_bytes(a) + t + Seq::<u8>::empty() =~= text_bytes(a) + t);
}

/// The input `t0 e1 t1 ... en tn` built from leading text and (sequence, text) pairs.
pub open spec fn interleave(t0: Seq<u8>, segs: Seq<(Seq<u8>, Seq<u8>)>) -> Seq<u8>
    decreases segs.len(),
{
    if segs.len() == 0 {
        t0
    } else {
        interleave(t0, segs.drop_last()) + segs.last().0 + segs.last().1
    }
}

/// The texts alone: `t0 t1 ... tn`.
pub open spec fn texts_of(t0: Seq<u8>, segs: Seq<(Seq<u8>, Seq<u8>)>) -> Seq<u8>
    decreases segs.len(),
{
    if segs.len() == 0 {
        t0
    } else {
        texts_of(t0, segs.drop_last()) + segs.last().1
    }
}

/// Clean texts interleaved with complete escape sequences come out as the texts alone.
pub proof fn lemma_sanitize_interleaved(t0: Seq<u8>, segs: Seq<(Seq<u8>, Seq<u8>)>)
    requires
        clean_text(t0),
        forall|i: int| 0 <= i < segs.len() ==> is_sequence(#[trigger] segs[i].0) && clean_text(segs[i].1),
    ensures
        sanitized(interleave(t0, segs)) == texts_of(t0, segs),
        text_bytes(interleave(t0, segs)) == texts_of(t0, segs),
        state_after(interleave(t0, segs)) == ParseState::Ground,
    decreases segs.len(),
{
    if segs.len() == 0 {
        lemma_clean_text_kept(t0);
        lemma_run_split(Seq::<u8>::empty(), t0);
        lemma_clean_run(t0);
        assert(Seq::<u8>::empty() + t0 =~= t0);
    } else {
        let p = segs.drop_last();
        assert forall|i: int| 0 <= i < p.len() implies is_sequence(#[trigger] p[i].0) && clean_text(p[i].1) by {
            assert(p[i] == segs[i]);
        }
        lemma_sanitize_interleaved(t0, p);
        let last = segs[segs.len() - 1];
        lemma_sequence_then_text(interleave(t0, p), last.0, last.1);
    }
}

} // verus!
