//! Wire codec for the signaling protocol.
//!
//! A relay frame is one JSON object, tagged by a discriminant field naming
//! the envelope variant.  The encoder emits the canonical form: no
//! whitespace, fields in declaration order, strings escaped with `\"`,
//! `\\`, `\n`, `\r`, `\t` and `\u00XX` (lowercase hex) for the remaining
//! control characters.  The decoder accepts exactly that canonical grammar;
//! anything else — an unknown tag, a truncated frame, a bad escape, an
//! out-of-range channel id, trailing bytes — is a decode error, never a
//! crash.
//!
//! `spec_encode` and `spec_decode` are the mathematical forms; the
//! executable `encode_envelope` and `decode_envelope` are proved equal to
//! them, and `lemma_encode_decode` shows the round trip: decoding a
//! canonical encoding yields the original envelope.

use vstd::prelude::*;
use vstd::string::StrSliceExecFns;

use crate::protocol::{
    Candidate, CandidateView, Participant, Room, SdpMessage, SdpMessageView, SdpType,
    SignalEnvelope, SignalEnvelopeView, SignalingMessage, SignalingMessageView,
};

verus! {

/// A frame that does not follow the wire grammar.
#[derive(Clone, Copy, Debug, PartialEq, Eq, Structural)]
pub enum DecodeError {
    Malformed,
}

// ---------------------------------------------------------------------------
// Characters: digits and hexadecimal digits
// ---------------------------------------------------------------------------

pub open spec fn is_digit(c: char) -> bool {
    c == '0' || c == '1' || c == '2' || c == '3' || c == '4' || c == '5' || c == '6' || c == '7'
        || c == '8' || c == '9'
}

pub open spec fn digit_val(c: char) -> int {
    if c == '0' {
        0
    } else if c == '1' {
        1
    } else if c == '2' {
        2
    } else if c == '3' {
        3
    } else if c == '4' {
        4
    } else if c == '5' {
        5
    } else if c == '6' {
        6
    } else if c == '7' {
        7
    } else if c == '8' {
        8
    } else if c == '9' {
        9
    } else {
        0
    }
}

pub open spec fn digit_char_of(d: int) -> char {
    if d == 0 {
        '0'
    } else if d == 1 {
        '1'
    } else if d == 2 {
        '2'
    } else if d == 3 {
        '3'
    } else if d == 4 {
        '4'
    } else if d == 5 {
        '5'
    } else if d == 6 {
        '6'
    } else if d == 7 {
        '7'
    } else if d == 8 {
        '8'
    } else {
        '9'
    }
}

pub open spec fn hex_char_of(h: int) -> char {
    if h < 10 {
        digit_char_of(h)
    } else if h == 10 {
        'a'
    } else if h == 11 {
        'b'
    } else if h == 12 {
        'c'
    } else if h == 13 {
        'd'
    } else if h == 14 {
        'e'
    } else {
        'f'
    }
}

/// Value of a hexadecimal digit as the encoder writes them: `0-9a-f`.
pub open spec fn hex_val(c: char) -> Option<u8> {
    if is_digit(c) {
        Some(digit_val(c) as u8)
    } else if c == 'a' {
        Some(10)
    } else if c == 'b' {
        Some(11)
    } else if c == 'c' {
        Some(12)
    } else if c == 'd' {
        Some(13)
    } else if c == 'e' {
        Some(14)
    } else if c == 'f' {
        Some(15)
    } else {
        None
    }
}

// ---------------------------------------------------------------------------
// Decimal numerals
// ---------------------------------------------------------------------------

/// The decimal numeral of `n`, most significant digit first.
pub open spec fn decimal(n: int) -> Seq<char>
    decreases n,
{
    if n < 10 {
        seq![digit_char_of(n)]
    } else {
        decimal(n / 10) + seq![digit_char_of(n % 10)]
    }
}

/// The number a digit sequence denotes.
pub open spec fn val_of(ds: Seq<char>) -> int
    decreases ds.len(),
{
    if ds.len() == 0 {
        0
    } else {
        val_of(ds.drop_last()) * 10 + digit_val(ds.last())
    }
}

// ---------------------------------------------------------------------------
// String escaping
// ---------------------------------------------------------------------------

/// How one character appears inside a JSON string on the wire.
pub open spec fn esc_char(c: char) -> Seq<char> {
    if c == '"' {
        seq!['\\', '"']
    } else if c == '\\' {
        seq!['\\', '\\']
    } else if c == '\n' {
        seq!['\\', 'n']
    } else if c == '\r' {
        seq!['\\', 'r']
    } else if c == '\t' {
        seq!['\\', 't']
    } else if (c as u32) < 32 {
        seq!['\\', 'u', '0', '0', hex_char_of((c as int) / 16), hex_char_of((c as int) % 16)]
    } else {
        seq![c]
    }
}

/// A whole string, escaped.
pub open spec fn esc(s: Seq<char>) -> Seq<char>
    decreases s.len(),
{
    if s.len() == 0 {
        Seq::empty()
    } else {
        esc_char(s[0]) + esc(s.subrange(1, s.len() as int))
    }
}

/// The character a single-letter escape stands for.
pub open spec fn unesc_char(c: char) -> Option<char> {
    if c == '"' {
        Some('"')
    } else if c == '\\' {
        Some('\\')
    } else if c == 'n' {
        Some('\n')
    } else if c == 'r' {
        Some('\r')
    } else if c == 't' {
        Some('\t')
    } else {
        None
    }
}

// ---------------------------------------------------------------------------
// The parsing functions (specification level)
// ---------------------------------------------------------------------------

/// `lit` occurs in `s` starting at position `i`.
pub open spec fn lit_at(s: Seq<char>, i: int, lit: Seq<char>) -> bool {
    0 <= i && i + lit.len() <= s.len() && s.subrange(i, i + lit.len()) == lit
}

/// Parse the body of a JSON string starting at `i` (the opening quote is
/// already consumed), up to and including the closing quote.  Yields the
/// unescaped text and the position after the closing quote.
pub open spec fn parse_str_body(s: Seq<char>, i: int) -> Option<(Seq<char>, int)>
    decreases s.len() - i,
{
    if i < 0 || i >= s.len() {
        None
    } else if s[i] == '"' {
        Some((Seq::empty(), i + 1))
    } else if s[i] == '\\' {
        if i + 1 >= s.len() {
            None
        } else if s[i + 1] == 'u' {
            if i + 5 >= s.len() {
                None
            } else if s[i + 2] == '0' && s[i + 3] == '0' {
                match (hex_val(s[i + 4]), hex_val(s[i + 5])) {
                    (Some(h1), Some(h2)) => match parse_str_body(s, i + 6) {
                        Some(p) => Some((seq![(16 * h1 + h2) as char] + p.0, p.1)),
                        None => None,
                    },
                    _ => None,
                }
            } else {
                None
            }
        } else {
            match unesc_char(s[i + 1]) {
                Some(c) => match parse_str_body(s, i + 2) {
                    Some(p) => Some((seq![c] + p.0, p.1)),
                    None => None,
                },
                None => None,
            }
        }
    } else if (s[i] as u32) < 32 {
        None
    } else {
        match parse_str_body(s, i + 1) {
            Some(p) => Some((seq![s[i]] + p.0, p.1)),
            None => None,
        }
    }
}

/// First position at or after `i` that does not hold a digit.
pub open spec fn digit_run_end(s: Seq<char>, i: int) -> int
    decreases s.len() - i,
{
    if 0 <= i && i < s.len() && is_digit(s[i]) {
        digit_run_end(s, i + 1)
    } else {
        i
    }
}

/// Parse a channel-id / line-index numeral at `i`: a non-empty digit run
/// without a leading zero whose value fits in `u16`.
pub open spec fn parse_u16_at(s: Seq<char>, i: int) -> Option<(u16, int)> {
    let j = digit_run_end(s, i);
    let ds = s.subrange(i, j);
    if i < 0 || i > s.len() {
        None
    } else if ds.len() == 0 {
        None
    } else if ds.len() > 1 && ds[0] == '0' {
        None
    } else if val_of(ds) > 65535 {
        None
    } else {
        Some((val_of(ds) as u16, j))
    }
}

// ---------------------------------------------------------------------------
// The fixed pieces of the wire grammar
// ---------------------------------------------------------------------------

pub open spec fn quote_seq() -> Seq<char> {
    seq!['"']
}

pub open spec fn lit_new_user_pre() -> Seq<char> {
    "{\"NewUser\":{\"participant\":{\"name\":\""@
}

pub open spec fn lit_joined_pre() -> Seq<char> {
    "{\"JoinedRoom\":{\"room\":{\"room\":\""@
}

pub open spec fn lit_from_pre() -> Seq<char> {
    "{\"SignalFromClient\":{\"content\":"@
}

pub open spec fn lit_to_pre() -> Seq<char> {
    "{\"SignalToClient\":{\"content\":"@
}

pub open spec fn lit_user_here_pre() -> Seq<char> {
    "{\"UserHere\":{\"message\":"@
}

pub open spec fn lit_ice_pre() -> Seq<char> {
    "{\"ICECandidate\":{\"message\":{\"candidate\":\""@
}

pub open spec fn lit_ice_mid() -> Seq<char> {
    ",\"sdp_mid\":\""@
}

pub open spec fn lit_ice_idx() -> Seq<char> {
    ",\"sdp_m_line_index\":"@
}

pub open spec fn lit_sdp_pre() -> Seq<char> {
    "{\"SDP\":{\"message\":{\"sdp_type\":\""@
}

pub open spec fn lit_offer() -> Seq<char> {
    "offer"@
}

pub open spec fn lit_answer() -> Seq<char> {
    "answer"@
}

pub open spec fn lit_sdp_mid() -> Seq<char> {
    "\",\"sdp\":\""@
}

pub open spec fn lit_close2() -> Seq<char> {
    "}}"@
}

pub open spec fn lit_close3() -> Seq<char> {
    "}}}"@
}

// ---------------------------------------------------------------------------
// Encoding (specification level)
// ---------------------------------------------------------------------------

pub open spec fn spec_encode_signaling(m: SignalingMessageView) -> Seq<char> {
    match m {
        SignalingMessageView::UserHere { message } => lit_user_here_pre() + decimal(
            message as int,
        ) + lit_close2(),
        SignalingMessageView::ICECandidate { message } => lit_ice_pre() + esc(message.candidate)
            + quote_seq() + lit_ice_mid() + esc(message.sdp_mid) + quote_seq() + lit_ice_idx()
            + decimal(message.sdp_m_line_index as int) + lit_close3(),
        SignalingMessageView::SDP { message } => lit_sdp_pre() + (if message.sdp_type
            == SdpType::Offer {
            lit_offer()
        } else {
            lit_answer()
        }) + lit_sdp_mid() + esc(message.sdp) + quote_seq() + lit_close3(),
    }
}

pub open spec fn spec_encode(e: SignalEnvelopeView) -> Seq<char> {
    match e {
        SignalEnvelopeView::NewUser { participant } => lit_new_user_pre() + esc(participant)
            + quote_seq() + lit_close3(),
        SignalEnvelopeView::JoinedRoom { room } => lit_joined_pre() + esc(room) + quote_seq()
            + lit_close3(),
        SignalEnvelopeView::SignalFromClient { content } => lit_from_pre() + spec_encode_signaling(
            content,
        ) + lit_close2(),
        SignalEnvelopeView::SignalToClient { content } => lit_to_pre() + spec_encode_signaling(
            content,
        ) + lit_close2(),
    }
}

// ---------------------------------------------------------------------------
// Decoding (specification level)
// ---------------------------------------------------------------------------

pub open spec fn spec_decode_sdp_tail(s: Seq<char>, j: int, t: SdpType) -> Option<
    (SignalingMessageView, int),
> {
    if lit_at(s, j, lit_sdp_mid()) {
        match parse_str_body(s, j + lit_sdp_mid().len()) {
            Some(p) => if lit_at(s, p.1, lit_close3()) {
                Some(
                    (
                        SignalingMessageView::SDP {
                            message: SdpMessageView { sdp_type: t, sdp: p.0 },
                        },
                        p.1 + lit_close3().len(),
                    ),
                )
            } else {
                None
            },
            None => None,
        }
    } else {
        None
    }
}

pub open spec fn spec_decode_signaling(s: Seq<char>, i: int) -> Option<
    (SignalingMessageView, int),
> {
    if lit_at(s, i, lit_user_here_pre()) {
        match parse_u16_at(s, i + lit_user_here_pre().len()) {
            Some(p) => if lit_at(s, p.1, lit_close2()) {
                Some(
                    (SignalingMessageView::UserHere { message: p.0 }, p.1 + lit_close2().len()),
                )
            } else {
                None
            },
            None => None,
        }
    } else if lit_at(s, i, lit_ice_pre()) {
        match parse_str_body(s, i + lit_ice_pre().len()) {
            Some(pc) => if lit_at(s, pc.1, lit_ice_mid()) {
                match parse_str_body(s, pc.1 + lit_ice_mid().len()) {
                    Some(pm) => if lit_at(s, pm.1, lit_ice_idx()) {
                        match parse_u16_at(s, pm.1 + lit_ice_idx().len()) {
                            Some(pn) => if lit_at(s, pn.1, lit_close3()) {
                                Some(
                                    (
                                        SignalingMessageView::ICECandidate {
                                            message: CandidateView {
                                                candidate: pc.0,
                                                sdp_mid: pm.0,
                                                sdp_m_line_index: pn.0,
                                            },
                                        },
                                        pn.1 + lit_close3().len(),
                                    ),
                                )
                            } else {
                                None
                            },
                            None => None,
                        }
                    } else {
                        None
                    },
                    None => None,
                }
            } else {
                None
            },
            None => None,
        }
    } else if lit_at(s, i, lit_sdp_pre()) {
        let j = i + lit_sdp_pre().len();
        if lit_at(s, j, lit_offer()) {
            spec_decode_sdp_tail(s, j + lit_offer().len(), SdpType::Offer)
        } else if lit_at(s, j, lit_answer()) {
            spec_decode_sdp_tail(s, j + lit_answer().len(), SdpType::Answer)
        } else {
            None
        }
    } else {
        None
    }
}

pub open spec fn spec_decode(s: Seq<char>) -> Option<SignalEnvelopeView> {
    if lit_at(s, 0, lit_new_user_pre()) {
        match parse_str_body(s, lit_new_user_pre().len() as int) {
            Some(p) => if lit_at(s, p.1, lit_close3()) && p.1 + lit_close3().len() == s.len() {
                Some(SignalEnvelopeView::NewUser { participant: p.0 })
            } else {
                None
            },
            None => None,
        }
    } else if lit_at(s, 0, lit_joined_pre()) {
        match parse_str_body(s, lit_joined_pre().len() as int) {
            Some(p) => if lit_at(s, p.1, lit_close3()) && p.1 + lit_close3().len() == s.len() {
                Some(SignalEnvelopeView::JoinedRoom { room: p.0 })
            } else {
                None
            },
            None => None,
        }
    } else if lit_at(s, 0, lit_from_pre()) {
        match spec_decode_signaling(s, lit_from_pre().len() as int) {
            Some(p) => if lit_at(s, p.1, lit_close2()) && p.1 + lit_close2().len() == s.len() {
                Some(SignalEnvelopeView::SignalFromClient { content: p.0 })
            } else {
                None
            },
            None => None,
        }
    } else if lit_at(s, 0, lit_to_pre()) {
        match spec_decode_signaling(s, lit_to_pre().len() as int) {
            Some(p) => if lit_at(s, p.1, lit_close2()) && p.1 + lit_close2().len() == s.len() {
                Some(SignalEnvelopeView::SignalToClient { content: p.0 })
            } else {
                None
            },
            None => None,
        }
    } else {
        None
    }
}

// ---------------------------------------------------------------------------
// Executable helpers over characters
// ---------------------------------------------------------------------------

fn digit_check(c: char) -> (b: bool)
    ensures
        b == is_digit(c),
{
    c == '0' || c == '1' || c == '2' || c == '3' || c == '4' || c == '5' || c == '6' || c == '7'
        || c == '8' || c == '9'
}

fn digit_value(c: char) -> (d: u8)
    ensures
        d == digit_val(c),
        d <= 9,
{
    if c == '0' {
        0
    } else if c == '1' {
        1
    } else if c == '2' {
        2
    } else if c == '3' {
        3
    } else if c == '4' {
        4
    } else if c == '5' {
        5
    } else if c == '6' {
        6
    } else if c == '7' {
        7
    } else if c == '8' {
        8
    } else if c == '9' {
        9
    } else {
        0
    }
}

fn digit_char(d: u8) -> (c: char)
    requires
        d <= 9,
    ensures
        c == digit_char_of(d as int),
{
    match d {
        0 => '0',
        1 => '1',
        2 => '2',
        3 => '3',
        4 => '4',
        5 => '5',
        6 => '6',
        7 => '7',
        8 => '8',
        _ => '9',
    }
}

fn hex_char(h: u8) -> (c: char)
    requires
        h <= 15,
    ensures
        c == hex_char_of(h as int),
{
    match h {
        0 => '0',
        1 => '1',
        2 => '2',
        3 => '3',
        4 => '4',
        5 => '5',
        6 => '6',
        7 => '7',
        8 => '8',
        9 => '9',
        10 => 'a',
        11 => 'b',
        12 => 'c',
        13 => 'd',
        14 => 'e',
        _ => 'f',
    }
}

fn hex_value(c: char) -> (r: Option<u8>)
    ensures
        r == hex_val(c),
        r matches Some(h) ==> h <= 15,
{
    if digit_check(c) {
        Some(digit_value(c))
    } else if c == 'a' {
        Some(10)
    } else if c == 'b' {
        Some(11)
    } else if c == 'c' {
        Some(12)
    } else if c == 'd' {
        Some(13)
    } else if c == 'e' {
        Some(14)
    } else if c == 'f' {
        Some(15)
    } else {
        None
    }
}

fn unescape_char(c: char) -> (r: Option<char>)
    ensures
        r == unesc_char(c),
{
    if c == '"' {
        Some('"')
    } else if c == '\\' {
        Some('\\')
    } else if c == 'n' {
        Some('\n')
    } else if c == 'r' {
        Some('\r')
    } else if c == 't' {
        Some('\t')
    } else {
        None
    }
}

/// The characters of `s`, as a vector.
fn str_chars(s: &str) -> (v: Vec<char>)
    ensures
        v@ == s@,
{
    let n = s.unicode_len();
    let mut v: Vec<char> = Vec::new();
    let mut k: usize = 0;
    while k < n
        invariant
            n == s@.len(),
            k <= n,
            v@ == s@.take(k as int),
        decreases n - k,
    {
        v.push(s.get_char(k));
        proof {
            assert(v@ =~= s@.take(k + 1 as int));
        }
        k += 1;
    }
    proof {
        assert(s@.take(n as int) =~= s@);
    }
    v
}

/// Relies on std's `String: FromIterator<char>`: collecting characters
/// yields a string whose characters are exactly the collected sequence.
#[verifier::external_body]
fn chars_to_string(v: &Vec<char>) -> (s: String)
    ensures
        s@ == v@,
{
    v.iter().collect()
}

// ---------------------------------------------------------------------------
// Executable parsing, proved equal to the specification parsers
// ---------------------------------------------------------------------------

/// If `lit` occurs at `i`, the position just after it.
fn eat_lit(v: &Vec<char>, i: usize, lit: &str) -> (r: Option<usize>)
    ensures
        match r {
            Some(j) => lit_at(v@, i as int, lit@) && j == i + lit@.len(),
            None => !lit_at(v@, i as int, lit@),
        },
{
    let n = lit.unicode_len();
    if i > v.len() || n > v.len() - i {
        return None;
    }
    let mut k: usize = 0;
    while k < n
        invariant
            k <= n,
            i + n <= v.len(),
            n == lit@.len(),
            forall|m: int| 0 <= m < k ==> v@[i + m] == lit@[m],
        decreases n - k,
    {
        if v[i + k] != lit.get_char(k) {
            proof {
                assert(v@.subrange(i as int, i + n as int)[k as int] == v@[i + k]);
            }
            return None;
        }
        k += 1;
    }
    proof {
        assert(v@.subrange(i as int, i + n as int) =~= lit@);
    }
    Some(i + n)
}

/// The body of a quoted string starting at `i` (after the opening quote).
fn parse_string_body(v: &Vec<char>, i: usize) -> (r: Option<(Vec<char>, usize)>)
    ensures
        match r {
            Some(p) => parse_str_body(v@, i as int) == Some((p.0@, p.1 as int)),
            None => parse_str_body(v@, i as int) is None,
        },
{
    let mut out: Vec<char> = Vec::new();
    let mut cur = i;
    loop
        invariant
            i <= cur,
            cur <= v@.len() || parse_str_body(v@, cur as int) is None,
            match parse_str_body(v@, cur as int) {
                Some(p) => parse_str_body(v@, i as int) == Some((out@ + p.0, p.1)),
                None => parse_str_body(v@, i as int) is None,
            },
        decreases v@.len() - cur,
    {
        if cur >= v.len() {
            return None;
        }
        let c = v[cur];
        if c == '"' {
            proof {
                assert(out@ + Seq::<char>::empty() =~= out@);
            }
            return Some((out, cur + 1));
        } else if c == '\\' {
            if cur + 1 >= v.len() {
                return None;
            }
            let e = v[cur + 1];
            if e == 'u' {
                if v.len() - cur < 6 {
                    return None;
                }
                if v[cur + 2] == '0' && v[cur + 3] == '0' {
                    match (hex_value(v[cur + 4]), hex_value(v[cur + 5])) {
                        (Some(h1), Some(h2)) => {
                            let ghost old_out = out@;
                            let code: u8 = 16 * h1 + h2;
                            out.push(code as char);
                            proof {
                                if let Some(p) = parse_str_body(v@, cur + 6 as int) {
                                    assert((old_out + seq![code as char]) + p.0 =~= old_out + (seq![
                                        code as char,
                                    ] + p.0));
                                }
                            }
                            cur = cur + 6;
                        },
                        _ => {
                            return None;
                        },
                    }
                } else {
                    return None;
                }
            } else {
                match unescape_char(e) {
                    Some(c2) => {
                        let ghost old_out = out@;
                        out.push(c2);
                        proof {
                            if let Some(p) = parse_str_body(v@, cur + 2 as int) {
                                assert((old_out + seq![c2]) + p.0 =~= old_out + (seq![c2] + p.0));
                            }
                        }
                        cur = cur + 2;
                    },
                    None => {
                        return None;
                    },
                }
            }
        } else if (c as u32) < 32 {
            return None;
        } else {
            let ghost old_out = out@;
            out.push(c);
            proof {
                if let Some(p) = parse_str_body(v@, cur + 1 as int) {
                    assert((old_out + seq![c]) + p.0 =~= old_out + (seq![c] + p.0));
                }
            }
            cur = cur + 1;
        }
    }
}

proof fn lemma_val_of_nonneg(ds: Seq<char>)
    ensures
        val_of(ds) >= 0,
    decreases ds.len(),
{
    if ds.len() > 0 {
        lemma_val_of_nonneg(ds.drop_last());
    }
}

/// The value of a digit run only grows as the run extends to the right.
proof fn lemma_val_of_prefix(ds: Seq<char>, m: int)
    requires
        0 <= m <= ds.len(),
    ensures
        val_of(ds.take(m)) <= val_of(ds),
    decreases ds.len(),
{
    if m < ds.len() {
        assert(ds.take(m) =~= ds.drop_last().take(m));
        lemma_val_of_prefix(ds.drop_last(), m);
        lemma_val_of_nonneg(ds.drop_last());
    } else {
        assert(ds.take(m) =~= ds);
    }
}

/// A numeral at `i`: a maximal digit run, no leading zero, value in `u16`.
fn parse_number(v: &Vec<char>, i: usize) -> (r: Option<(u16, usize)>)
    requires
        i <= v@.len(),
    ensures
        match r {
            Some(p) => parse_u16_at(v@, i as int) == Some((p.0, p.1 as int)),
            None => parse_u16_at(v@, i as int) is None,
        },
{
    let mut j = i;
    while j < v.len() && digit_check(v[j])
        invariant
            i <= j <= v@.len(),
            forall|m: int| i <= m < j ==> is_digit(v@[m]),
            digit_run_end(v@, i as int) == digit_run_end(v@, j as int),
        decreases v@.len() - j,
    {
        j += 1;
    }
    proof {
        assert(digit_run_end(v@, j as int) == j);
    }
    let ghost ds = v@.subrange(i as int, j as int);
    if j == i {
        return None;
    }
    if j - i > 1 && v[i] == '0' {
        proof {
            assert(ds[0] == '0');
        }
        return None;
    }
    let mut acc: u32 = 0;
    let mut k = i;
    while k < j
        invariant
            i <= k <= j <= v@.len(),
            i < j,
            forall|m: int| i <= m < j ==> is_digit(v@[m]),
            ds == v@.subrange(i as int, j as int),
            digit_run_end(v@, i as int) == j,
            !(ds.len() > 1 && ds[0] == '0'),
            acc == val_of(v@.subrange(i as int, k as int)),
            acc <= 65535,
        decreases j - k,
    {
        let d = digit_value(v[k]);
        proof {
            assert(v@.subrange(i as int, k + 1 as int).drop_last() =~= v@.subrange(
                i as int,
                k as int,
            ));
            assert(v@.subrange(i as int, k + 1 as int).last() == v@[k as int]);
        }
        let next: u32 = acc * 10 + d as u32;
        if next > 65535 {
            proof {
                assert(val_of(v@.subrange(i as int, k + 1 as int)) == acc * 10 + d);
                assert(v@.subrange(i as int, k + 1 as int) =~= ds.take(k + 1 - i));
                lemma_val_of_prefix(ds, k + 1 - i);
                assert(val_of(ds) > 65535);
            }
            return None;
        }
        acc = next;
        k += 1;
    }
    proof {
        assert(v@.subrange(i as int, k as int) =~= ds);
    }
    Some((acc as u16, j))
}

fn decode_signaling_at(v: &Vec<char>, i: usize) -> (r: Option<(SignalingMessage, usize)>)
    ensures
        match r {
            Some(p) => spec_decode_signaling(v@, i as int) == Some((p.0@, p.1 as int)),
            None => spec_decode_signaling(v@, i as int) is None,
        },
{
    if let Some(j) = eat_lit(v, i, "{\"UserHere\":{\"message\":") {
        match parse_number(v, j) {
            Some((n, j2)) => match eat_lit(v, j2, "}}") {
                Some(j3) => Some((SignalingMessage::UserHere { message: n }, j3)),
                None => None,
            },
            None => None,
        }
    } else if let Some(j) = eat_lit(v, i, "{\"ICECandidate\":{\"message\":{\"candidate\":\"") {
        match parse_string_body(v, j) {
            Some((cand, j2)) => match eat_lit(v, j2, ",\"sdp_mid\":\"") {
                Some(j3) => match parse_string_body(v, j3) {
                    Some((mid, j4)) => match eat_lit(v, j4, ",\"sdp_m_line_index\":") {
                        Some(j5) => match parse_number(v, j5) {
                            Some((n, j6)) => match eat_lit(v, j6, "}}}") {
                                Some(j7) => Some(
                                    (
                                        SignalingMessage::ICECandidate {
                                            message: Candidate {
                                                candidate: chars_to_string(&cand),
                                                sdp_mid: chars_to_string(&mid),
                                                sdp_m_line_index: n,
                                            },
                                        },
                                        j7,
                                    ),
                                ),
                                None => None,
                            },
                            None => None,
                        },
                        None => None,
                    },
                    None => None,
                },
                None => None,
            },
            None => None,
        }
    } else if let Some(j) = eat_lit(v, i, "{\"SDP\":{\"message\":{\"sdp_type\":\"") {
        let parsed = if let Some(j2) = eat_lit(v, j, "offer") {
            Some((SdpType::Offer, j2))
        } else if let Some(j2) = eat_lit(v, j, "answer") {
            Some((SdpType::Answer, j2))
        } else {
            None
        };
        match parsed {
            Some((t, j2)) => match eat_lit(v, j2, "\",\"sdp\":\"") {
                Some(j3) => match parse_string_body(v, j3) {
                    Some((sdp, j4)) => match eat_lit(v, j4, "}}}") {
                        Some(j5) => Some(
                            (
                                SignalingMessage::SDP {
                                    message: SdpMessage {
                                        sdp_type: t,
                                        sdp: chars_to_string(&sdp),
                                    },
                                },
                                j5,
                            ),
                        ),
                        None => None,
                    },
                    None => None,
                },
                None => None,
            },
            None => None,
        }
    } else {
        None
    }
}

/// Decode one relay frame.  Succeeds exactly on frames that follow the wire
/// grammar (`spec_decode`); every other frame is a malformed-frame error.
pub fn decode_envelope(frame: &str) -> (r: Result<SignalEnvelope, DecodeError>)
    ensures
        match r {
            Ok(env) => spec_decode(frame@) == Some(env@),
            Err(_) => spec_decode(frame@) is None,
        },
{
    let v = str_chars(frame);
    if let Some(j) = eat_lit(&v, 0, "{\"NewUser\":{\"participant\":{\"name\":\"") {
        match parse_string_body(&v, j) {
            Some((name, j2)) => match eat_lit(&v, j2, "}}}") {
                Some(j3) => if j3 == v.len() {
                    Ok(
                        SignalEnvelope::NewUser {
                            participant: Participant { name: chars_to_string(&name) },
                        },
                    )
                } else {
                    Err(DecodeError::Malformed)
                },
                None => Err(DecodeError::Malformed),
            },
            None => Err(DecodeError::Malformed),
        }
    } else if let Some(j) = eat_lit(&v, 0, "{\"JoinedRoom\":{\"room\":{\"room\":\"") {
        match parse_string_body(&v, j) {
            Some((room, j2)) => match eat_lit(&v, j2, "}}}") {
                Some(j3) => if j3 == v.len() {
                    Ok(SignalEnvelope::JoinedRoom { room: Room { room: chars_to_string(&room) } })
                } else {
                    Err(DecodeError::Malformed)
                },
                None => Err(DecodeError::Malformed),
            },
            None => Err(DecodeError::Malformed),
        }
    } else if let Some(j) = eat_lit(&v, 0, "{\"SignalFromClient\":{\"content\":") {
        match decode_signaling_at(&v, j) {
            Some((m, j2)) => match eat_lit(&v, j2, "}}") {
                Some(j3) => if j3 == v.len() {
                    Ok(SignalEnvelope::SignalFromClient { content: m })
                } else {
                    Err(DecodeError::Malformed)
                },
                None => Err(DecodeError::Malformed),
            },
            None => Err(DecodeError::Malformed),
        }
    } else if let Some(j) = eat_lit(&v, 0, "{\"SignalToClient\":{\"content\":") {
        match decode_signaling_at(&v, j) {
            Some((m, j2)) => match eat_lit(&v, j2, "}}") {
                Some(j3) => if j3 == v.len() {
                    Ok(SignalEnvelope::SignalToClient { content: m })
                } else {
                    Err(DecodeError::Malformed)
                },
                None => Err(DecodeError::Malformed),
            },
            None => Err(DecodeError::Malformed),
        }
    } else {
        Err(DecodeError::Malformed)
    }
}

// ---------------------------------------------------------------------------
// Executable encoding
// ---------------------------------------------------------------------------

/// Append the characters of `lit`.
fn push_lit(out: &mut Vec<char>, lit: &str)
    ensures
        final(out)@ == old(out)@ + lit@,
{
    let n = lit.unicode_len();
    let mut k: usize = 0;
    while k < n
        invariant
            k <= n,
            n == lit@.len(),
            out@ == old(out)@ + lit@.take(k as int),
        decreases n - k,
    {
        out.push(lit.get_char(k));
        proof {
            assert(old(out)@ + lit@.take(k as int) + seq![lit@[k as int]] =~= old(out)@
                + lit@.take(k + 1 as int));
        }
        k += 1;
    }
    proof {
        assert(lit@.take(n as int) =~= lit@);
    }
}

/// Append the wire form of one character.
fn push_escaped_char(out: &mut Vec<char>, c: char)
    ensures
        final(out)@ == old(out)@ + esc_char(c),
{
    if c == '"' {
        out.push('\\');
        out.push('"');
        proof {
            assert(out@ =~= old(out)@ + esc_char(c));
        }
    } else if c == '\\' {
        out.push('\\');
        out.push('\\');
        proof {
            assert(out@ =~= old(out)@ + esc_char(c));
        }
    } else if c == '\n' {
        out.push('\\');
        out.push('n');
        proof {
            assert(out@ =~= old(out)@ + esc_char(c));
        }
    } else if c == '\r' {
        out.push('\\');
        out.push('r');
        proof {
            assert(out@ =~= old(out)@ + esc_char(c));
        }
    } else if c == '\t' {
        out.push('\\');
        out.push('t');
        proof {
            assert(out@ =~= old(out)@ + esc_char(c));
        }
    } else if (c as u32) < 32 {
        let code = c as u32;
        out.push('\\');
        out.push('u');
        out.push('0');
        out.push('0');
        out.push(hex_char((code / 16) as u8));
        out.push(hex_char((code % 16) as u8));
        proof {
            assert(out@ =~= old(out)@ + esc_char(c));
        }
    } else {
        out.push(c);
        proof {
            assert(out@ =~= old(out)@ + esc_char(c));
        }
    }
}

proof fn lemma_esc_append(a: Seq<char>, b: Seq<char>)
    ensures
        esc(a + b) == esc(a) + esc(b),
    decreases a.len(),
{
    if a.len() == 0 {
        assert(a + b =~= b);
        assert(esc(a) + esc(b) =~= esc(b));
    } else {
        assert((a + b).subrange(1, (a + b).len() as int) =~= a.subrange(1, a.len() as int) + b);
        lemma_esc_append(a.subrange(1, a.len() as int), b);
        assert(esc_char((a + b)[0]) + (esc(a.subrange(1, a.len() as int)) + esc(b)) =~= (esc_char(
            a[0],
        ) + esc(a.subrange(1, a.len() as int))) + esc(b));
    }
}

/// Append the escaped form of `s`.
fn push_escaped(out: &mut Vec<char>, s: &str)
    ensures
        final(out)@ == old(out)@ + esc(s@),
{
    let n = s.unicode_len();
    let mut k: usize = 0;
    while k < n
        invariant
            k <= n,
            n == s@.len(),
            out@ == old(out)@ + esc(s@.take(k as int)),
        decreases n - k,
    {
        let ghost before = out@;
        push_escaped_char(out, s.get_char(k));
        proof {
            assert(s@.take(k + 1 as int) =~= s@.take(k as int) + seq![s@[k as int]]);
            lemma_esc_append(s@.take(k as int), seq![s@[k as int]]);
            assert(seq![s@[k as int]].subrange(1, 1) =~= Seq::<char>::empty());
            assert(esc(Seq::<char>::empty()) == Seq::<char>::empty());
            assert(esc_char(s@[k as int]) + Seq::<char>::empty() =~= esc_char(s@[k as int]));
            assert(esc(seq![s@[k as int]]) == esc_char(s@[k as int]));
            assert(old(out)@ + esc(s@.take(k as int)) + esc_char(s@[k as int]) =~= old(out)@ + esc(
                s@.take(k + 1 as int),
            ));
        }
        k += 1;
    }
    proof {
        assert(s@.take(n as int) =~= s@);
    }
}

/// Append the decimal numeral of `n`.
fn push_u16(out: &mut Vec<char>, n: u16)
    ensures
        final(out)@ == old(out)@ + decimal(n as int),
    decreases n,
{
    if n < 10 {
        out.push(digit_char(n as u8));
        proof {
            assert(out@ =~= old(out)@ + decimal(n as int));
        }
    } else {
        push_u16(out, n / 10);
        out.push(digit_char((n % 10) as u8));
        proof {
            assert(out@ =~= old(out)@ + decimal(n as int));
        }
    }
}

fn encode_signaling_into(out: &mut Vec<char>, m: &SignalingMessage)
    ensures
        final(out)@ == old(out)@ + spec_encode_signaling(m@),
{
    match m {
        SignalingMessage::UserHere { message } => {
            push_lit(out, "{\"UserHere\":{\"message\":");
            push_u16(out, *message);
            push_lit(out, "}}");
            proof {
                assert(out@ =~= old(out)@ + spec_encode_signaling(m@));
            }
        },
        SignalingMessage::ICECandidate { message } => {
            push_lit(out, "{\"ICECandidate\":{\"message\":{\"candidate\":\"");
            push_escaped(out, message.candidate.as_str());
            push_lit(out, "\"");
            push_lit(out, ",\"sdp_mid\":\"");
            push_escaped(out, message.sdp_mid.as_str());
            push_lit(out, "\"");
            push_lit(out, ",\"sdp_m_line_index\":");
            push_u16(out, message.sdp_m_line_index);
            push_lit(out, "}}}");
            proof {
                reveal_strlit("\"");
                assert("\""@ =~= quote_seq());
                assert(out@ =~= old(out)@ + spec_encode_signaling(m@));
            }
        },
        SignalingMessage::SDP { message } => {
            push_lit(out, "{\"SDP\":{\"message\":{\"sdp_type\":\"");
            match message.sdp_type {
                SdpType::Offer => push_lit(out, "offer"),
                SdpType::Answer => push_lit(out, "answer"),
            }
            push_lit(out, "\",\"sdp\":\"");
            push_escaped(out, message.sdp.as_str());
            push_lit(out, "\"");
            push_lit(out, "}}}");
            proof {
                reveal_strlit("\"");
                assert("\""@ =~= quote_seq());
                assert(out@ =~= old(out)@ + spec_encode_signaling(m@));
            }
        },
    }
}

/// Encode an envelope into its canonical wire form (`spec_encode`).
pub fn encode_envelope(e: &SignalEnvelope) -> (r: String)
    ensures
        r@ == spec_encode(e@),
{
    let mut out: Vec<char> = Vec::new();
    match e {
        SignalEnvelope::NewUser { participant } => {
            push_lit(&mut out, "{\"NewUser\":{\"participant\":{\"name\":\"");
            push_escaped(&mut out, participant.name.as_str());
            push_lit(&mut out, "\"");
            push_lit(&mut out, "}}}");
            proof {
                reveal_strlit("\"");
                assert("\""@ =~= quote_seq());
                assert(out@ =~= spec_encode(e@));
            }
        },
        SignalEnvelope::JoinedRoom { room } => {
            push_lit(&mut out, "{\"JoinedRoom\":{\"room\":{\"room\":\"");
            push_escaped(&mut out, room.room.as_str());
            push_lit(&mut out, "\"");
            push_lit(&mut out, "}}}");
            proof {
                reveal_strlit("\"");
                assert("\""@ =~= quote_seq());
                assert(out@ =~= spec_encode(e@));
            }
        },
        SignalEnvelope::SignalFromClient { content } => {
            push_lit(&mut out, "{\"SignalFromClient\":{\"content\":");
            encode_signaling_into(&mut out, content);
            push_lit(&mut out, "}}");
            proof {
                assert(out@ =~= spec_encode(e@));
            }
        },
        SignalEnvelope::SignalToClient { content } => {
            push_lit(&mut out, "{\"SignalToClient\":{\"content\":");
            encode_signaling_into(&mut out, content);
            push_lit(&mut out, "}}");
            proof {
                assert(out@ =~= spec_encode(e@));
            }
        },
    }
    chars_to_string(&out)
}

// ---------------------------------------------------------------------------
// Round trip: decoding a canonical encoding yields the original envelope
// ---------------------------------------------------------------------------

proof fn lemma_lit_at_concat(pre: Seq<char>, lit: Seq<char>, rest: Seq<char>)
    ensures
        lit_at(pre + lit + rest, pre.len() as int, lit),
{
    let s = pre + lit + rest;
    let i = pre.len() as int;
    let m = lit.len() as int;
    assert forall|k: int| 0 <= k < m implies s[i + k] == lit[k] by {
        assert((pre + lit)[i + k] == lit[k]);
    }
    assert(s.subrange(i, i + m) =~= lit);
}

proof fn lemma_esc_control(c: char)
    requires
        c != '"' && c != '\\' && c != '\n' && c != '\r' && c != '\t',
        (c as u32) < 32,
    ensures
        esc_char(c) == seq!['\\', 'u', '0', '0', hex_char_of((c as int) / 16), hex_char_of(
            (c as int) % 16,
        )],
        hex_val(hex_char_of((c as int) / 16)) == Some(((c as int) / 16) as u8),
        hex_val(hex_char_of((c as int) % 16)) == Some(((c as int) % 16) as u8),
        (16 * (((c as int) / 16) as u8) + (((c as int) % 16) as u8)) as char == c,
{
    let v = c as int;
    assert(0 <= v < 32);
    assert(0 <= v / 16 < 2 && 0 <= v % 16 < 16);
    assert(16 * (((c as int) / 16) as u8) + (((c as int) % 16) as u8) == v);
}

/// The string parser reads back exactly what the escaper wrote.
proof fn lemma_parse_escaped(s: Seq<char>, pre: Seq<char>, x: Seq<char>, rest: Seq<char>)
    requires
        s == pre + esc(x) + quote_seq() + rest,
    ensures
        parse_str_body(s, pre.len() as int) == Some((x, pre.len() + esc(x).len() + 1 as int)),
    decreases x.len(),
{
    let i = pre.len() as int;
    if x.len() == 0 {
        assert(esc(x) == Seq::<char>::empty());
        assert(s[i] == '"') by {
            assert(s[i] == (pre + esc(x) + quote_seq())[i]);
        }
        assert(x =~= Seq::<char>::empty());
    } else {
        let c = x[0];
        let x1 = x.subrange(1, x.len() as int);
        assert(esc(x) == esc_char(c) + esc(x1));
        let pre1 = pre + esc_char(c);
        assert(s =~= pre1 + esc(x1) + quote_seq() + rest);
        lemma_parse_escaped(pre1 + esc(x1) + quote_seq() + rest, pre1, x1, rest);
        let tail_res = parse_str_body(s, pre1.len() as int);
        assert(tail_res == Some((x1, pre1.len() + esc(x1).len() + 1 as int)));
        assert forall|k: int| 0 <= k < esc_char(c).len() implies s[i + k] == esc_char(c)[k] by {
            assert(pre1[i + k] == esc_char(c)[k]);
            assert((pre1 + esc(x1))[i + k] == pre1[i + k]);
            assert((pre1 + esc(x1) + quote_seq())[i + k] == (pre1 + esc(x1))[i + k]);
        }
        assert(seq![c] + x1 =~= x);
        if c == '"' || c == '\\' || c == '\n' || c == '\r' || c == '\t' {
            assert(esc_char(c).len() == 2);
            assert(s[i] == '\\' && s[i + 1] == esc_char(c)[1]);
            assert(unesc_char(esc_char(c)[1]) == Some(c));
            assert(parse_str_body(s, i) == Some((seq![c] + x1, pre1.len() + esc(x1).len() + 1 as int)));
        } else if (c as u32) < 32 {
            let v = c as int;
            lemma_esc_control(c);
            assert(s[i] == '\\' && s[i + 1] == 'u' && s[i + 2] == '0' && s[i + 3] == '0');
            assert(s[i + 4] == hex_char_of(v / 16) && s[i + 5] == hex_char_of(v % 16));
            assert(parse_str_body(s, i) == Some((seq![c] + x1, pre1.len() + esc(x1).len() + 1 as int)));
        } else {
            assert(esc_char(c) == seq![c]);
            assert(s[i] == c);
            assert(parse_str_body(s, i) == Some((seq![c] + x1, pre1.len() + esc(x1).len() + 1 as int)));
        }
    }
}

proof fn lemma_digit_run(s: Seq<char>, i: int, j: int)
    requires
        0 <= i <= j <= s.len(),
        forall|m: int| i <= m < j ==> is_digit(s[m]),
        j == s.len() || !is_digit(s[j]),
    ensures
        digit_run_end(s, i) == j,
    decreases j - i,
{
    if i < j {
        lemma_digit_run(s, i + 1, j);
    }
}

proof fn lemma_decimal_digits(n: int)
    requires
        n >= 0,
    ensures
        decimal(n).len() >= 1,
        forall|k: int| 0 <= k < decimal(n).len() ==> is_digit(#[trigger] decimal(n)[k]),
        n >= 1 ==> decimal(n)[0] != '0',
        n < 10 ==> decimal(n).len() == 1,
    decreases n,
{
    if n < 10 {
        assert(is_digit(decimal(n)[0]));
    } else {
        lemma_decimal_digits(n / 10);
        let a = decimal(n / 10);
        let d = seq![digit_char_of(n % 10)];
        assert(decimal(n) == a + d);
        assert forall|k: int| 0 <= k < decimal(n).len() implies is_digit(
            #[trigger] decimal(n)[k],
        ) by {
            if k < a.len() {
                assert(decimal(n)[k] == a[k]);
            } else {
                assert(decimal(n)[k] == digit_char_of(n % 10));
            }
        }
        assert(decimal(n)[0] == a[0]);
    }
}

proof fn lemma_val_of_decimal(n: int)
    requires
        n >= 0,
    ensures
        val_of(decimal(n)) == n,
    decreases n,
{
    if n < 10 {
        assert(decimal(n).drop_last() =~= Seq::<char>::empty());
        assert(decimal(n).last() == digit_char_of(n));
        assert(val_of(Seq::<char>::empty()) == 0);
        assert(digit_val(digit_char_of(n)) == n);
    } else {
        lemma_val_of_decimal(n / 10);
        let a = decimal(n / 10);
        let d = seq![digit_char_of(n % 10)];
        assert(decimal(n) == a + d);
        assert((a + d).drop_last() =~= a);
        assert((a + d).last() == digit_char_of(n % 10));
        assert(digit_val(digit_char_of(n % 10)) == n % 10);
    }
}

/// The numeral parser reads back exactly what the number printer wrote.
proof fn lemma_parse_u16(s: Seq<char>, pre: Seq<char>, n: u16, rest: Seq<char>)
    requires
        s == pre + decimal(n as int) + rest,
        rest.len() > 0,
        !is_digit(rest[0]),
    ensures
        parse_u16_at(s, pre.len() as int) == Some(
            (n, pre.len() + decimal(n as int).len() as int),
        ),
{
    let i = pre.len() as int;
    let d = decimal(n as int);
    let j = i + d.len() as int;
    lemma_decimal_digits(n as int);
    assert forall|m: int| i <= m < j implies is_digit(s[m]) by {
        assert((pre + d)[m] == d[m - i]);
        assert(s[m] == (pre + d)[m]);
    }
    assert(s[j] == rest[0]);
    lemma_digit_run(s, i, j);
    assert(s.subrange(i, j) =~= d);
    lemma_val_of_decimal(n as int);
    if d.len() > 1 {
        assert(d[0] != '0');
    }
}

/// The signaling-message decoder inverts the signaling-message encoder, at
/// any position and whatever follows.
#[verifier::rlimit(100)]
proof fn lemma_decode_sig_user_here(pre: Seq<char>, m: SignalingMessageView, rest: Seq<char>)
    requires
        m matches SignalingMessageView::UserHere { .. },
    ensures
        spec_decode_signaling(pre + spec_encode_signaling(m) + rest, pre.len() as int) == Some(
            (m, pre.len() + spec_encode_signaling(m).len() as int),
        ),
{
    reveal_strlit("{\"UserHere\":{\"message\":");
    reveal_strlit("}}");
    let s = pre + spec_encode_signaling(m) + rest;
    if let SignalingMessageView::UserHere { message } = m {
        let num = decimal(message as int);
        let pre1 = pre + lit_user_here_pre();
        assert(s =~= pre1 + num + (lit_close2() + rest));
        lemma_lit_at_concat(pre, lit_user_here_pre(), num + (lit_close2() + rest));
        assert(pre + lit_user_here_pre() + (num + (lit_close2() + rest)) =~= s);
        lemma_parse_u16(pre1 + num + (lit_close2() + rest), pre1, message, lit_close2() + rest);
        assert((lit_close2() + rest)[0] == '}');
        lemma_lit_at_concat(pre1 + num, lit_close2(), rest);
        assert(pre1 + num + lit_close2() + rest =~= s);
    }
}

/// Steps of the ICE-candidate frame up to and including the `sdp_mid`
/// string, at any position.
#[verifier::rlimit(100)]
proof fn lemma_ice_strings(pre: Seq<char>, c: Seq<char>, mid: Seq<char>, tail: Seq<char>)
    ensures
        ({
            let s = pre + lit_ice_pre() + esc(c) + quote_seq() + lit_ice_mid() + esc(mid)
                + quote_seq() + tail;
            let i1 = pre.len() + lit_ice_pre().len() as int;
            let i2 = i1 + esc(c).len() + 1 as int;
            let i3 = i2 + lit_ice_mid().len() as int;
            let i4 = i3 + esc(mid).len() + 1 as int;
            &&& lit_at(s, pre.len() as int, lit_ice_pre())
            &&& parse_str_body(s, i1) == Some((c, i2))
            &&& lit_at(s, i2, lit_ice_mid())
            &&& parse_str_body(s, i3) == Some((mid, i4))
        }),
{
    let s = pre + lit_ice_pre() + esc(c) + quote_seq() + lit_ice_mid() + esc(mid) + quote_seq()
        + tail;
    let pre1 = pre + lit_ice_pre();
    let pre2 = pre1 + esc(c) + quote_seq();
    let pre3 = pre2 + lit_ice_mid();
    lemma_lit_at_concat(pre, lit_ice_pre(), esc(c) + quote_seq() + lit_ice_mid() + esc(mid)
        + quote_seq() + tail);
    assert(pre + lit_ice_pre() + (esc(c) + quote_seq() + lit_ice_mid() + esc(mid) + quote_seq()
        + tail) =~= s);
    lemma_parse_escaped(
        pre1 + esc(c) + quote_seq() + (lit_ice_mid() + esc(mid) + quote_seq() + tail),
        pre1,
        c,
        lit_ice_mid() + esc(mid) + quote_seq() + tail,
    );
    assert(pre1 + esc(c) + quote_seq() + (lit_ice_mid() + esc(mid) + quote_seq() + tail) =~= s);
    lemma_lit_at_concat(pre2, lit_ice_mid(), esc(mid) + quote_seq() + tail);
    assert(pre2 + lit_ice_mid() + (esc(mid) + quote_seq() + tail) =~= s);
    lemma_parse_escaped(pre3 + esc(mid) + quote_seq() + tail, pre3, mid, tail);
    assert(pre3 + esc(mid) + quote_seq() + tail =~= s);
}

/// Steps of the ICE-candidate frame from the line-index key to the closing
/// braces, at any position.
#[verifier::rlimit(100)]
proof fn lemma_ice_index(pre: Seq<char>, n: u16, rest: Seq<char>)
    ensures
        ({
            let s = pre + lit_ice_idx() + decimal(n as int) + lit_close3() + rest;
            let i1 = pre.len() + lit_ice_idx().len() as int;
            let i2 = i1 + decimal(n as int).len() as int;
            &&& lit_at(s, pre.len() as int, lit_ice_idx())
            &&& parse_u16_at(s, i1) == Some((n, i2))
            &&& lit_at(s, i2, lit_close3())
        }),
{
    reveal_strlit("}}}");
    let s = pre + lit_ice_idx() + decimal(n as int) + lit_close3() + rest;
    let num = decimal(n as int);
    let pre1 = pre + lit_ice_idx();
    let pre2 = pre1 + num;
    lemma_lit_at_concat(pre, lit_ice_idx(), num + lit_close3() + rest);
    assert(pre + lit_ice_idx() + (num + lit_close3() + rest) =~= s);
    lemma_parse_u16(pre1 + num + (lit_close3() + rest), pre1, n, lit_close3() + rest);
    assert((lit_close3() + rest)[0] == '}');
    assert(pre1 + num + (lit_close3() + rest) =~= s);
    lemma_lit_at_concat(pre2, lit_close3(), rest);
    assert(pre2 + lit_close3() + rest =~= s);
}

#[verifier::rlimit(100)]
proof fn lemma_decode_sig_ice(pre: Seq<char>, m: SignalingMessageView, rest: Seq<char>)
    requires
        m matches SignalingMessageView::ICECandidate { .. },
    ensures
        spec_decode_signaling(pre + spec_encode_signaling(m) + rest, pre.len() as int) == Some(
            (m, pre.len() + spec_encode_signaling(m).len() as int),
        ),
{
    reveal_strlit("{\"UserHere\":{\"message\":");
    reveal_strlit("{\"ICECandidate\":{\"message\":{\"candidate\":\"");
    let s = pre + spec_encode_signaling(m) + rest;
    let i = pre.len() as int;
    let enc = spec_encode_signaling(m);
    if let SignalingMessageView::ICECandidate { message } = m {
        assert(!lit_at(s, i, lit_user_here_pre())) by {
            if lit_at(s, i, lit_user_here_pre()) {
                assert(s.subrange(i, i + lit_user_here_pre().len())[2] == s[i + 2]);
                assert(s[i + 2] == (pre + enc)[i + 2]);
                assert(enc[2] == lit_ice_pre()[2]);
                assert(false);
            }
        }
        let c = message.candidate;
        let mid = message.sdp_mid;
        let num = decimal(message.sdp_m_line_index as int);
        let tail = lit_ice_idx() + num + lit_close3() + rest;
        assert(pre + lit_ice_pre() + esc(c) + quote_seq() + lit_ice_mid() + esc(mid) + quote_seq()
            + tail =~= s);
        lemma_ice_strings(pre, c, mid, tail);
        let pre5 = pre + lit_ice_pre() + esc(c) + quote_seq() + lit_ice_mid() + esc(mid)
            + quote_seq();
        assert(pre5 + lit_ice_idx() + num + lit_close3() + rest =~= s);
        lemma_ice_index(pre5, message.sdp_m_line_index, rest);
    }
}

#[verifier::rlimit(100)]
proof fn lemma_decode_sig_sdp(pre: Seq<char>, m: SignalingMessageView, rest: Seq<char>)
    requires
        m matches SignalingMessageView::SDP { .. },
    ensures
        spec_decode_signaling(pre + spec_encode_signaling(m) + rest, pre.len() as int) == Some(
            (m, pre.len() + spec_encode_signaling(m).len() as int),
        ),
{
    reveal_strlit("{\"UserHere\":{\"message\":");
    reveal_strlit("{\"ICECandidate\":{\"message\":{\"candidate\":\"");
    reveal_strlit("{\"SDP\":{\"message\":{\"sdp_type\":\"");
    reveal_strlit("offer");
    reveal_strlit("answer");
    let s = pre + spec_encode_signaling(m) + rest;
    let i = pre.len() as int;
    let enc = spec_encode_signaling(m);
    if let SignalingMessageView::SDP { message } = m {
        assert(!lit_at(s, i, lit_user_here_pre())) by {
            if lit_at(s, i, lit_user_here_pre()) {
                assert(s.subrange(i, i + lit_user_here_pre().len())[2] == s[i + 2]);
                assert(s[i + 2] == (pre + enc)[i + 2]);
                assert(enc[2] == lit_sdp_pre()[2]);
                assert(false);
            }
        }
        assert(!lit_at(s, i, lit_ice_pre())) by {
            if lit_at(s, i, lit_ice_pre()) {
                assert(s.subrange(i, i + lit_ice_pre().len())[2] == s[i + 2]);
                assert(s[i + 2] == (pre + enc)[i + 2]);
                assert(enc[2] == lit_sdp_pre()[2]);
                assert(false);
            }
        }
        let t = message.sdp_type;
        let tlit = if t == SdpType::Offer {
            lit_offer()
        } else {
            lit_answer()
        };
        let pre1 = pre + lit_sdp_pre();
        let pre2 = pre1 + tlit;
        let pre3 = pre2 + lit_sdp_mid();
        lemma_lit_at_concat(pre, lit_sdp_pre(), tlit + lit_sdp_mid() + esc(message.sdp)
            + quote_seq() + lit_close3() + rest);
        assert(pre + lit_sdp_pre() + (tlit + lit_sdp_mid() + esc(message.sdp) + quote_seq()
            + lit_close3() + rest) =~= s);
        lemma_lit_at_concat(pre1, tlit, lit_sdp_mid() + esc(message.sdp) + quote_seq()
            + lit_close3() + rest);
        assert(pre1 + tlit + (lit_sdp_mid() + esc(message.sdp) + quote_seq() + lit_close3()
            + rest) =~= s);
        if t == SdpType::Answer {
            assert(!lit_at(s, pre1.len() as int, lit_offer())) by {
                if lit_at(s, pre1.len() as int, lit_offer()) {
                    assert(s.subrange(
                        pre1.len() as int,
                        pre1.len() + lit_offer().len() as int,
                    )[0] == s[pre1.len() as int]);
                    assert(s[pre1.len() as int] == (pre1 + tlit)[pre1.len() as int]);
                    assert((pre1 + tlit)[pre1.len() as int] == tlit[0]);
                    assert(false);
                }
            }
        }
        lemma_lit_at_concat(pre2, lit_sdp_mid(), esc(message.sdp) + quote_seq() + lit_close3()
            + rest);
        assert(pre2 + lit_sdp_mid() + (esc(message.sdp) + quote_seq() + lit_close3() + rest)
            =~= s);
        lemma_parse_escaped(
            pre3 + esc(message.sdp) + quote_seq() + (lit_close3() + rest),
            pre3,
            message.sdp,
            lit_close3() + rest,
        );
        assert(pre3 + esc(message.sdp) + quote_seq() + (lit_close3() + rest) =~= s);
        let pre4 = pre3 + esc(message.sdp) + quote_seq();
        lemma_lit_at_concat(pre4, lit_close3(), rest);
        assert(pre4 + lit_close3() + rest =~= s);
    }
}

proof fn lemma_decode_signaling(pre: Seq<char>, m: SignalingMessageView, rest: Seq<char>)
    ensures
        spec_decode_signaling(pre + spec_encode_signaling(m) + rest, pre.len() as int) == Some(
            (m, pre.len() + spec_encode_signaling(m).len() as int),
        ),
{
    match m {
        SignalingMessageView::UserHere { .. } => lemma_decode_sig_user_here(pre, m, rest),
        SignalingMessageView::ICECandidate { .. } => lemma_decode_sig_ice(pre, m, rest),
        SignalingMessageView::SDP { .. } => lemma_decode_sig_sdp(pre, m, rest),
    }
}

#[verifier::rlimit(100)]
proof fn lemma_encode_decode_new_user(e: SignalEnvelopeView)
    requires
        e matches SignalEnvelopeView::NewUser { .. },
    ensures
        spec_decode(spec_encode(e)) == Some(e),
{
    reveal_strlit("{\"NewUser\":{\"participant\":{\"name\":\"");
    reveal_strlit("}}}");
    let s = spec_encode(e);
    if let SignalEnvelopeView::NewUser { participant } = e {
        lemma_parse_escaped(s, lit_new_user_pre(), participant, lit_close3());
        let pre2 = lit_new_user_pre() + esc(participant) + quote_seq();
        lemma_lit_at_concat(pre2, lit_close3(), Seq::<char>::empty());
        assert(pre2 + lit_close3() + Seq::<char>::empty() =~= s);
        assert(lit_at(s, 0, lit_new_user_pre())) by {
            lemma_lit_at_concat(Seq::<char>::empty(), lit_new_user_pre(), esc(participant)
                + quote_seq() + lit_close3());
            assert(Seq::<char>::empty() + lit_new_user_pre() + (esc(participant) + quote_seq()
                + lit_close3()) =~= s);
        }
    }
}

#[verifier::rlimit(100)]
proof fn lemma_encode_decode_joined_room(e: SignalEnvelopeView)
    requires
        e matches SignalEnvelopeView::JoinedRoom { .. },
    ensures
        spec_decode(spec_encode(e)) == Some(e),
{
    reveal_strlit("{\"NewUser\":{\"participant\":{\"name\":\"");
    reveal_strlit("{\"JoinedRoom\":{\"room\":{\"room\":\"");
    reveal_strlit("}}}");
    let s = spec_encode(e);
    if let SignalEnvelopeView::JoinedRoom { room } = e {
        assert(!lit_at(s, 0, lit_new_user_pre())) by {
            if lit_at(s, 0, lit_new_user_pre()) {
                assert(s.subrange(0, lit_new_user_pre().len() as int)[2] == s[2]);
                assert(s[2] == lit_joined_pre()[2]);
                assert(false);
            }
        }
        lemma_parse_escaped(s, lit_joined_pre(), room, lit_close3());
        let pre2 = lit_joined_pre() + esc(room) + quote_seq();
        lemma_lit_at_concat(pre2, lit_close3(), Seq::<char>::empty());
        assert(pre2 + lit_close3() + Seq::<char>::empty() =~= s);
        assert(lit_at(s, 0, lit_joined_pre())) by {
            lemma_lit_at_concat(Seq::<char>::empty(), lit_joined_pre(), esc(room) + quote_seq()
                + lit_close3());
            assert(Seq::<char>::empty() + lit_joined_pre() + (esc(room) + quote_seq()
                + lit_close3()) =~= s);
        }
    }
}

#[verifier::rlimit(100)]
proof fn lemma_encode_decode_from_client(e: SignalEnvelopeView)
    requires
        e matches SignalEnvelopeView::SignalFromClient { .. },
    ensures
        spec_decode(spec_encode(e)) == Some(e),
{
    reveal_strlit("{\"NewUser\":{\"participant\":{\"name\":\"");
    reveal_strlit("{\"JoinedRoom\":{\"room\":{\"room\":\"");
    reveal_strlit("{\"SignalFromClient\":{\"content\":");
    reveal_strlit("}}");
    let s = spec_encode(e);
    if let SignalEnvelopeView::SignalFromClient { content } = e {
        assert(!lit_at(s, 0, lit_new_user_pre())) by {
            if lit_at(s, 0, lit_new_user_pre()) {
                assert(s.subrange(0, lit_new_user_pre().len() as int)[2] == s[2]);
                assert(s[2] == lit_from_pre()[2]);
                assert(false);
            }
        }
        assert(!lit_at(s, 0, lit_joined_pre())) by {
            if lit_at(s, 0, lit_joined_pre()) {
                assert(s.subrange(0, lit_joined_pre().len() as int)[2] == s[2]);
                assert(s[2] == lit_from_pre()[2]);
                assert(false);
            }
        }
        assert(lit_at(s, 0, lit_from_pre())) by {
            lemma_lit_at_concat(Seq::<char>::empty(), lit_from_pre(), spec_encode_signaling(
                content,
            ) + lit_close2());
            assert(Seq::<char>::empty() + lit_from_pre() + (spec_encode_signaling(content)
                + lit_close2()) =~= s);
        }
        lemma_decode_signaling(lit_from_pre(), content, lit_close2());
        assert(lit_from_pre() + spec_encode_signaling(content) + lit_close2() == s);
        let pre2 = lit_from_pre() + spec_encode_signaling(content);
        lemma_lit_at_concat(pre2, lit_close2(), Seq::<char>::empty());
        assert(pre2 + lit_close2() + Seq::<char>::empty() =~= s);
    }
}

#[verifier::rlimit(100)]
proof fn lemma_encode_decode_to_client(e: SignalEnvelopeView)
    requires
        e matches SignalEnvelopeView::SignalToClient { .. },
    ensures
        spec_decode(spec_encode(e)) == Some(e),
{
    reveal_strlit("{\"NewUser\":{\"participant\":{\"name\":\"");
    reveal_strlit("{\"JoinedRoom\":{\"room\":{\"room\":\"");
    reveal_strlit("{\"SignalFromClient\":{\"content\":");
    reveal_strlit("{\"SignalToClient\":{\"content\":");
    reveal_strlit("}}");
    let s = spec_encode(e);
    if let SignalEnvelopeView::SignalToClient { content } = e {
        assert(!lit_at(s, 0, lit_new_user_pre())) by {
            if lit_at(s, 0, lit_new_user_pre()) {
                assert(s.subrange(0, lit_new_user_pre().len() as int)[2] == s[2]);
                assert(s[2] == lit_to_pre()[2]);
                assert(false);
            }
        }
        assert(!lit_at(s, 0, lit_joined_pre())) by {
            if lit_at(s, 0, lit_joined_pre()) {
                assert(s.subrange(0, lit_joined_pre().len() as int)[2] == s[2]);
                assert(s[2] == lit_to_pre()[2]);
                assert(false);
            }
        }
        assert(!lit_at(s, 0, lit_from_pre())) by {
            if lit_at(s, 0, lit_from_pre()) {
                assert(s.subrange(0, lit_from_pre().len() as int)[8] == s[8]);
                assert(s[8] == lit_to_pre()[8]);
                assert(false);
            }
        }
        assert(lit_at(s, 0, lit_to_pre())) by {
            lemma_lit_at_concat(Seq::<char>::empty(), lit_to_pre(), spec_encode_signaling(
                content,
            ) + lit_close2());
            assert(Seq::<char>::empty() + lit_to_pre() + (spec_encode_signaling(content)
                + lit_close2()) =~= s);
        }
        lemma_decode_signaling(lit_to_pre(), content, lit_close2());
        assert(lit_to_pre() + spec_encode_signaling(content) + lit_close2() == s);
        let pre2 = lit_to_pre() + spec_encode_signaling(content);
        lemma_lit_at_concat(pre2, lit_close2(), Seq::<char>::empty());
        assert(pre2 + lit_close2() + Seq::<char>::empty() =~= s);
    }
}

/// Decoding a canonical encoding yields the original envelope: the wire
/// round trip is the identity, for every envelope variant.
pub proof fn lemma_encode_decode(e: SignalEnvelopeView)
    ensures
        spec_decode(spec_encode(e)) == Some(e),
{
    match e {
        SignalEnvelopeView::NewUser { .. } => lemma_encode_decode_new_user(e),
        SignalEnvelopeView::JoinedRoom { .. } => lemma_encode_decode_joined_room(e),
        SignalEnvelopeView::SignalFromClient { .. } => lemma_encode_decode_from_client(e),
        SignalEnvelopeView::SignalToClient { .. } => lemma_encode_decode_to_client(e),
    }
}

} // verus!
