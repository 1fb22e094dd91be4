//! The persisted form of the session log: a JSON-style array of objects,
//! one per session, with fixed-width timestamps (`null` for an open end),
//! a kind tag and an escaped note string. Encoding and parsing are defined
//! here as mathematical functions, the executable codec is proved against
//! them, and parsing an encoded log is proved to give the log back.

use vstd::prelude::*;
use vstd::string::StrSliceExecFns;
use crate::session::{Session, SessionType, SessionView};
use crate::strutil::{chars_to_string, str_chars};

verus! {

/// Timestamps are written with this many decimal digits, zero padded.
pub const TS_DIGITS: usize = 11;

pub open spec fn digit_char(d: int) -> char {
    if d == 0 {
        '0'
    } else if d == 1 {
        '1'
    } else if d == 2 {
        '2'
    } else if d == 3 {
        '3'
    } else if d == 4 {
        '4'
    } else if d == 5 {
        '5'
    } else if d == 6 {
        '6'
    } else if d == 7 {
        '7'
    } else if d == 8 {
        '8'
    } else {
        '9'
    }
}

pub open spec fn digit_val(c: char) -> int {
    if c == '0' {
        0
    } else if c == '1' {
        1
    } else if c == '2' {
        2
    } else if c == '3' {
        3
    } else if c == '4' {
        4
    } else if c == '5' {
        5
    } else if c == '6' {
        6
    } else if c == '7' {
        7
    } else if c == '8' {
        8
    } else if c == '9' {
        9
    } else {
        -1
    }
}

pub open spec fn pow10(w: nat) -> int
    decreases w,
{
    if w == 0 {
        1
    } else {
        10 * pow10((w - 1) as nat)
    }
}

/// `n` written with exactly `w` decimal digits, most significant first.
pub open spec fn dec_fix(n: int, w: nat) -> Seq<char>
    decreases w,
{
    if w == 0 {
        Seq::empty()
    } else {
        seq![digit_char(n / pow10((w - 1) as nat) % 10)] + dec_fix(
            n % pow10((w - 1) as nat),
            (w - 1) as nat,
        )
    }
}

/// A note character as it is written: backslash and quote get a
/// backslash escape, everything else stands as itself.
pub open spec fn esc_char(c: char) -> Seq<char> {
    if c == '\\' || c == '"' {
        seq!['\\', c]
    } else {
        seq![c]
    }
}

pub open spec fn esc(s: Seq<char>) -> Seq<char>
    decreases s.len(),
{
    if s.len() == 0 {
        Seq::empty()
    } else {
        esc_char(s[0]) + esc(s.drop_first())
    }
}

pub open spec fn kind_seq(k: SessionType) -> Seq<char> {
    match k {
        SessionType::Work => "Work"@,
        SessionType::Break => "Break"@,
        SessionType::Idle => "Idle"@,
    }
}

pub open spec fn key_start() -> Seq<char> {
    "{\"start_time\":"@
}

pub open spec fn key_end() -> Seq<char> {
    ",\"end_time\":"@
}

pub open spec fn key_kind() -> Seq<char> {
    ",\"session_type\":\""@
}

pub open spec fn key_note() -> Seq<char> {
    "\",\"note\":\""@
}

pub open spec fn obj_close() -> Seq<char> {
    "\"}"@
}

pub open spec fn obj_end() -> Seq<char> {
    "}"@
}

pub open spec fn null_seq() -> Seq<char> {
    "null"@
}

/// One session as written.
pub open spec fn enc_session(v: SessionView) -> Seq<char> {
    key_start() + dec_fix(v.start_time, TS_DIGITS as nat) + key_end() + (match v.end_time {
        Some(e) => dec_fix(e, TS_DIGITS as nat),
        None => null_seq(),
    }) + key_kind() + kind_seq(v.session_type) + key_note() + esc(v.note) + obj_close()
}

/// A non-empty log as written: sessions joined by commas.
pub open spec fn enc_list(ss: Seq<SessionView>) -> Seq<char>
    decreases ss.len(),
{
    if ss.len() == 0 {
        Seq::empty()
    } else if ss.len() == 1 {
        enc_session(ss[0])
    } else {
        enc_session(ss[0]) + seq![','] + enc_list(ss.drop_first())
    }
}

/// The whole log as written: the list in brackets.
pub open spec fn enc_sessions(ss: Seq<SessionView>) -> Seq<char> {
    seq!['['] + enc_list(ss) + seq![']']
}

// --- the executable encoder ---

fn digit_to_char(d: i64) -> (r: char)
    requires
        0 <= d <= 9,
    ensures
        r == digit_char(d as int),
{
    if d == 0 {
        '0'
    } else if d == 1 {
        '1'
    } else if d == 2 {
        '2'
    } else if d == 3 {
        '3'
    } else if d == 4 {
        '4'
    } else if d == 5 {
        '5'
    } else if d == 6 {
        '6'
    } else if d == 7 {
        '7'
    } else if d == 8 {
        '8'
    } else {
        '9'
    }
}

/// `pow10` for the widths the codec uses, as a machine integer.
fn pow10_exec(w: usize) -> (r: i64)
    requires
        w <= 12,
    ensures
        r == pow10(w as nat),
        1 <= r <= 1_000_000_000_000,
{
    proof {
        reveal_with_fuel(pow10, 13);
    }
    let mut r: i64 = 1;
    let mut i: usize = 0;
    while i < w
        invariant
            i <= w <= 12,
            r == pow10(i as nat),
            1 <= r <= 1_000_000_000_000,
        decreases w - i,
    {
        proof {
            reveal_with_fuel(pow10, 13);
            lemma_pow10_le(i as nat + 1, 12);
        }
        r = r * 10;
        i = i + 1;
    }
    r
}

pub(crate) proof fn lemma_pow10_le(a: nat, b: nat)
    requires
        a <= b,
    ensures
        pow10(a) <= pow10(b),
    decreases b,
{
    if a < b {
        lemma_pow10_le(a, (b - 1) as nat);
        assert(pow10(b) == 10 * pow10((b - 1) as nat));
        assert(pow10(a) >= 1) by {
            lemma_pow10_pos(a);
        }
        assert(pow10((b - 1) as nat) >= 1) by {
            lemma_pow10_pos((b - 1) as nat);
        }
    }
}

pub(crate) proof fn lemma_pow10_pos(a: nat)
    ensures
        pow10(a) >= 1,
    decreases a,
{
    if a > 0 {
        lemma_pow10_pos((a - 1) as nat);
    }
}

/// Writes `n` with exactly `w` digits, most significant first.
pub(crate) fn push_dec_fix(out: &mut Vec<char>, n: i64, w: usize)
    requires
        w <= 11,
        0 <= n < pow10(w as nat),
    ensures
        final(out)@ == old(out)@ + dec_fix(n as int, w as nat),
    decreases w,
{
    if w > 0 {
        let ghost pre = out@;
        let p = pow10_exec(w - 1);
        proof {
            lemma_pow10_pos((w - 1) as nat);
            assert(pow10(w as nat) == 10 * pow10((w - 1) as nat));
            vstd::arithmetic::div_mod::lemma_div_pos_is_pos(n as int, p as int);
            vstd::arithmetic::div_mod::lemma_div_is_ordered_by_denominator(n as int, 1, p as int);
            assert(n / p <= n);
            vstd::arithmetic::div_mod::lemma_mod_bound(n as int, p as int);
            assert((n as int) / (p as int) < 10) by (nonlinear_arith)
                requires
                    0 <= n < 10 * (p as int) && p >= 1;
        }
        let d = (n / p) % 10;
        proof {
            vstd::arithmetic::div_mod::lemma_small_mod((n / p) as nat, 10);
        }
        out.push(digit_to_char(d));
        push_dec_fix(out, n % p, w - 1);
        proof {
            assert(out@ =~= pre + dec_fix(n as int, w as nat));
        }
    }
}

/// Appends the characters of a string slice.
fn append_chars(out: &mut Vec<char>, s: &str)
    ensures
        final(out)@ == old(out)@ + s@,
{
    let n = s.unicode_len();
    let mut i: usize = 0;
    while i < n
        invariant
            n == s@.len(),
            i <= n,
            out@ == old(out)@ + s@.take(i as int),
        decreases n - i,
    {
        out.push(s.get_char(i));
        i = i + 1;
        proof {
            assert(old(out)@ + s@.take(i as int) =~= (old(out)@ + s@.take(i as int - 1)).push(
                s@[i as int - 1],
            ));
        }
    }
    proof {
        assert(s@.take(n as int) =~= s@);
    }
}

/// Writes the escaped form of the characters of `chars` from `i` on.
fn push_esc(out: &mut Vec<char>, chars: &Vec<char>, i: usize)
    requires
        i <= chars@.len(),
    ensures
        final(out)@ == old(out)@ + esc(chars@.skip(i as int)),
    decreases chars@.len() - i,
{
    let ghost pre = out@;
    if i < chars.len() {
        let c = chars[i];
        if c == '\\' || c == '"' {
            out.push('\\');
            out.push(c);
        } else {
            out.push(c);
        }
        push_esc(out, chars, i + 1);
        proof {
            assert(chars@.skip(i as int).drop_first() =~= chars@.skip(i as int + 1));
            assert(chars@.skip(i as int)[0] == chars@[i as int]);
            assert(out@ =~= pre + esc(chars@.skip(i as int)));
        }
    } else {
        proof {
            assert(chars@.skip(i as int) =~= Seq::<char>::empty());
            assert(out@ =~= pre + esc(chars@.skip(i as int)));
        }
    }
}

/// Writes one session.
fn push_session(out: &mut Vec<char>, s: &Session)
    requires
        s.wf(),
    ensures
        final(out)@ == old(out)@ + enc_session(s@),
{
    let ghost pre = out@;
    proof {
        reveal_with_fuel(pow10, 13);
    }
    append_chars(out, "{\"start_time\":");
    push_dec_fix(out, s.start_time, TS_DIGITS);
    append_chars(out, ",\"end_time\":");
    match s.end_time {
        Some(e) => push_dec_fix(out, e, TS_DIGITS),
        None => append_chars(out, "null"),
    }
    append_chars(out, ",\"session_type\":\"");
    match s.session_type {
        SessionType::Work => append_chars(out, "Work"),
        SessionType::Break => append_chars(out, "Break"),
        SessionType::Idle => append_chars(out, "Idle"),
    }
    append_chars(out, "\",\"note\":\"");
    let note_chars = str_chars(s.note.as_str());
    proof {
        assert(note_chars@.skip(0) =~= s@.note);
    }
    push_esc(out, &note_chars, 0);
    append_chars(out, "\"}");
    proof {
        assert(out@ =~= pre + enc_session(s@));
    }
}

/// Writes the sessions from `i` on, joined by commas.
fn push_list(out: &mut Vec<char>, sessions: &Vec<Session>, i: usize)
    requires
        i <= sessions@.len(),
        crate::controller::all_wf(sessions.deep_view()),
    ensures
        final(out)@ == old(out)@ + enc_list(sessions.deep_view().skip(i as int)),
    decreases sessions@.len() - i,
{
    let ghost pre = out@;
    let ghost ssv = sessions.deep_view();
    if i < sessions.len() {
        proof {
            assert(ssv[i as int].wf());
            assert(sessions[i as int]@ == ssv[i as int]);
        }
        push_session(out, &sessions[i]);
        if i + 1 < sessions.len() {
            out.push(',');
            push_list(out, sessions, i + 1);
            proof {
                assert(ssv.skip(i as int).drop_first() =~= ssv.skip(i as int + 1));
                assert(ssv.skip(i as int)[0] == ssv[i as int]);
                assert(ssv.skip(i as int).len() > 1);
                assert(out@ =~= pre + enc_list(ssv.skip(i as int)));
            }
        } else {
            proof {
                assert(ssv.skip(i as int).len() == 1);
                assert(ssv.skip(i as int)[0] == ssv[i as int]);
                assert(out@ =~= pre + enc_list(ssv.skip(i as int)));
            }
        }
    } else {
        proof {
            assert(ssv.skip(i as int) =~= Seq::<SessionView>::empty());
            assert(out@ =~= pre + enc_list(ssv.skip(i as int)));
        }
    }
}

/// The whole log as persisted text.
pub fn encode_sessions(sessions: &Vec<Session>) -> (r: String)
    requires
        crate::controller::all_wf(sessions.deep_view()),
    ensures
        r@ == enc_sessions(sessions.deep_view()),
{
    let mut out: Vec<char> = Vec::new();
    out.push('[');
    push_list(&mut out, sessions, 0);
    out.push(']');
    proof {
        assert(sessions.deep_view().skip(0) =~= sessions.deep_view());
        assert(out@ =~= enc_sessions(sessions.deep_view()));
    }
    chars_to_string(out)
}

// --- the parsing functions, as mathematics: each consumes a prefix of
// the text and hands back what it read and the remaining suffix ---

/// The literal `lit`, exactly.
pub open spec fn p_lit(t: Seq<char>, lit: Seq<char>) -> Option<Seq<char>> {
    if lit.len() <= t.len() && t.take(lit.len() as int) == lit {
        Some(t.skip(lit.len() as int))
    } else {
        None
    }
}

/// Exactly `w` decimal digits, folded onto `acc`.
pub open spec fn p_fix_num(t: Seq<char>, acc: int, w: nat) -> Option<(int, Seq<char>)>
    decreases w,
{
    if w == 0 {
        Some((acc, t))
    } else if t.len() > 0 && digit_val(t[0]) >= 0 {
        p_fix_num(t.drop_first(), acc * 10 + digit_val(t[0]), (w - 1) as nat)
    } else {
        None
    }
}

/// An end timestamp: `null` for an open session, or a fixed-width number.
pub open spec fn p_end(t: Seq<char>) -> Option<(Option<int>, Seq<char>)> {
    match p_lit(t, null_seq()) {
        Some(r) => Some((None, r)),
        None => match p_fix_num(t, 0, TS_DIGITS as nat) {
            Some((n, r)) => Some((Some(n), r)),
            None => None,
        },
    }
}

/// A kind tag.
pub open spec fn p_kind(t: Seq<char>) -> Option<(SessionType, Seq<char>)> {
    match p_lit(t, kind_seq(SessionType::Work)) {
        Some(r) => Some((SessionType::Work, r)),
        None => match p_lit(t, kind_seq(SessionType::Break)) {
            Some(r) => Some((SessionType::Break, r)),
            None => match p_lit(t, kind_seq(SessionType::Idle)) {
                Some(r) => Some((SessionType::Idle, r)),
                None => None,
            },
        },
    }
}

/// A string body up to its closing quote, undoing the escapes.
pub open spec fn p_str(t: Seq<char>) -> Option<(Seq<char>, Seq<char>)>
    decreases t.len(),
{
    if t.len() == 0 {
        None
    } else if t[0] == '"' {
        Some((Seq::empty(), t.drop_first()))
    } else if t[0] == '\\' {
        if t.len() >= 2 && (t[1] == '\\' || t[1] == '"') {
            match p_str(t.skip(2)) {
                Some((s, r)) => Some((seq![t[1]] + s, r)),
                None => None,
            }
        } else {
            None
        }
    } else {
        match p_str(t.drop_first()) {
            Some((s, r)) => Some((seq![t[0]] + s, r)),
            None => None,
        }
    }
}

/// One session object. A session whose end precedes its start is refused
/// as malformed.
pub open spec fn p_session(t: Seq<char>) -> Option<(SessionView, Seq<char>)> {
    match p_lit(t, key_start()) {
        None => None,
        Some(t1) => match p_fix_num(t1, 0, TS_DIGITS as nat) {
            None => None,
            Some((start, t2)) => match p_lit(t2, key_end()) {
                None => None,
                Some(t3) => match p_end(t3) {
                    None => None,
                    Some((end, t4)) => match p_lit(t4, key_kind()) {
                        None => None,
                        Some(t5) => match p_kind(t5) {
                            None => None,
                            Some((kind, t6)) => match p_lit(t6, key_note()) {
                                None => None,
                                Some(t7) => match p_str(t7) {
                                    None => None,
                                    Some((note, t8)) => match p_lit(t8, obj_end()) {
                                        None => None,
                                        Some(t9) => if match end {
                                            Some(e) => start <= e,
                                            None => true,
                                        } {
                                            Some(
                                                (
                                                    SessionView {
                                                        start_time: start,
                                                        end_time: end,
                                                        session_type: kind,
                                                        note,
                                                    },
                                                    t9,
                                                ),
                                            )
                                        } else {
                                            None
                                        },
                                    },
                                },
                            },
                        },
                    },
                },
            },
        },
    }
}

/// One or more sessions joined by commas.
pub open spec fn p_list(t: Seq<char>) -> Option<(Seq<SessionView>, Seq<char>)>
    decreases t.len(),
{
    match p_session(t) {
        None => None,
        Some((v, r)) => if r.len() > 0 && r[0] == ',' {
            if r.len() < t.len() {
                match p_list(r.drop_first()) {
                    Some((vs, r2)) => Some((seq![v] + vs, r2)),
                    None => None,
                }
            } else {
                None
            }
        } else {
            Some((seq![v], r))
        },
    }
}

/// The whole persisted text: a bracketed, possibly empty list, with
/// nothing after it.
pub open spec fn p_sessions(t: Seq<char>) -> Option<Seq<SessionView>> {
    if t == seq!['[', ']'] {
        Some(Seq::empty())
    } else {
        match p_lit(t, seq!['[']) {
            None => None,
            Some(t1) => match p_list(t1) {
                Some((vs, r)) => if r == seq![']'] {
                    Some(vs)
                } else {
                    None
                },
                None => None,
            },
        }
    }
}

// --- the executable parser ---

fn char_digit(c: char) -> (d: i64)
    ensures
        d == digit_val(c),
{
    if c == '0' {
        0
    } else if c == '1' {
        1
    } else if c == '2' {
        2
    } else if c == '3' {
        3
    } else if c == '4' {
        4
    } else if c == '5' {
        5
    } else if c == '6' {
        6
    } else if c == '7' {
        7
    } else if c == '8' {
        8
    } else if c == '9' {
        9
    } else {
        -1
    }
}

/// Consumes the literal `lit` at `pos`.
fn match_lit(t: &Vec<char>, pos: usize, lit: &str) -> (r: Option<usize>)
    requires
        pos <= t@.len(),
    ensures
        match r {
            Some(p2) => pos <= p2 <= t@.len() && p2 == pos + lit@.len() && p_lit(
                t@.skip(pos as int),
                lit@,
            ) == Some(t@.skip(p2 as int)),
            None => p_lit(t@.skip(pos as int), lit@) is None,
        },
{
    let l = lit.unicode_len();
    if l > t.len() - pos {
        return None;
    }
    let mut j: usize = 0;
    while j < l
        invariant
            pos + l <= t@.len(),
            t@.len() <= usize::MAX,
            l == lit@.len(),
            j <= l,
            forall|k: int| 0 <= k < j ==> t@[pos + k] == lit@[k],
        decreases l - j,
    {
        if t[pos + j] != lit.get_char(j) {
            proof {
                assert(t@.skip(pos as int).take(l as int)[j as int] == t@[pos + j]);
                assert(t@.skip(pos as int).take(l as int) != lit@);
            }
            return None;
        }
        j = j + 1;
    }
    proof {
        assert(t@.skip(pos as int).take(l as int) =~= lit@);
        assert(t@.skip(pos as int).skip(l as int) =~= t@.skip(pos as int + l as int));
    }
    Some(pos + l)
}

/// Consumes exactly `w` digits at `pos`, folding them onto `acc`.
fn parse_fix_rec(t: &Vec<char>, pos: usize, acc: i64, w: usize) -> (r: Option<(i64, usize)>)
    requires
        pos <= t@.len(),
        w <= 11,
        0 <= acc < pow10((11 - w) as nat),
    ensures
        match r {
            Some((n, p2)) => pos <= p2 <= t@.len() && p2 == pos + w && p_fix_num(
                t@.skip(pos as int),
                acc as int,
                w as nat,
            ) == Some((n as int, t@.skip(p2 as int))) && 0 <= n < pow10(11),
            None => p_fix_num(t@.skip(pos as int), acc as int, w as nat) is None,
        },
    decreases w,
{
    proof {
        lemma_pow10_le((11 - w) as nat, 11);
        reveal_with_fuel(pow10, 13);
    }
    if w == 0 {
        return Some((acc, pos));
    }
    if pos == t.len() {
        return None;
    }
    let d = char_digit(t[pos]);
    if d < 0 {
        return None;
    }
    proof {
        assert(t@.skip(pos as int)[0] == t@[pos as int]);
        assert(t@.skip(pos as int).drop_first() =~= t@.skip(pos as int + 1));
        lemma_pow10_le((11 - w) as nat, 10);
        assert(pow10((11 - (w - 1)) as nat) == 10 * pow10((11 - w) as nat));
    }
    parse_fix_rec(t, pos + 1, acc * 10 + d, w - 1)
}

/// A fixed-width timestamp at `pos`.
fn parse_fix_num(t: &Vec<char>, pos: usize) -> (r: Option<(i64, usize)>)
    requires
        pos <= t@.len(),
    ensures
        match r {
            Some((n, p2)) => pos <= p2 <= t@.len() && p2 == pos + TS_DIGITS && p_fix_num(
                t@.skip(pos as int),
                0,
                TS_DIGITS as nat,
            ) == Some((n as int, t@.skip(p2 as int))) && 0 <= n <= 99_999_999_999,
            None => p_fix_num(t@.skip(pos as int), 0, TS_DIGITS as nat) is None,
        },
{
    proof {
        reveal_with_fuel(pow10, 13);
    }
    parse_fix_rec(t, pos, 0, TS_DIGITS)
}

/// A string body at `pos`, up to its closing quote, undoing the escapes.
fn parse_str(t: &Vec<char>, pos: usize) -> (r: Option<(Vec<char>, usize)>)
    requires
        pos <= t@.len(),
    ensures
        match r {
            Some((s, p2)) => pos <= p2 <= t@.len() && p_str(t@.skip(pos as int)) == Some(
                (s@, t@.skip(p2 as int)),
            ),
            None => p_str(t@.skip(pos as int)) is None,
        },
    decreases t@.len() - pos,
{
    if pos == t.len() {
        return None;
    }
    let c = t[pos];
    proof {
        assert(t@.skip(pos as int)[0] == t@[pos as int]);
        assert(t@.skip(pos as int).drop_first() =~= t@.skip(pos as int + 1));
    }
    if c == '"' {
        let s: Vec<char> = Vec::new();
        proof {
            assert(s@ =~= Seq::<char>::empty());
        }
        Some((s, pos + 1))
    } else if c == '\\' {
        if pos + 1 < t.len() {
            let c2 = t[pos + 1];
            proof {
                assert(t@.skip(pos as int)[1] == t@[pos as int + 1]);
                assert(t@.skip(pos as int).skip(2) =~= t@.skip(pos as int + 2));
            }
            if c2 == '\\' || c2 == '"' {
                match parse_str(t, pos + 2) {
                    None => None,
                    Some((mut s, p2)) => {
                        let ghost s_pre = s@;
                        s.insert(0, c2);
                        proof {
                            assert(s@ =~= seq![c2] + s_pre);
                        }
                        Some((s, p2))
                    },
                }
            } else {
                None
            }
        } else {
            None
        }
    } else {
        match parse_str(t, pos + 1) {
            None => None,
            Some((mut s, p2)) => {
                let ghost s_pre = s@;
                s.insert(0, c);
                proof {
                    assert(s@ =~= seq![c] + s_pre);
                }
                Some((s, p2))
            },
        }
    }
}

/// One session object at `pos`.
fn parse_session(t: &Vec<char>, pos: usize) -> (r: Option<(Session, usize)>)
    requires
        pos <= t@.len(),
    ensures
        match r {
            Some((s, p2)) => pos < p2 <= t@.len() && p_session(t@.skip(pos as int)) == Some(
                (s@, t@.skip(p2 as int)),
            ) && s.wf(),
            None => p_session(t@.skip(pos as int)) is None,
        },
{
    let p1 = match match_lit(t, pos, "{\"start_time\":") {
        None => { return None; },
        Some(p) => p,
    };
    proof {
        reveal_strlit("{\"start_time\":");
    }
    let (start, p2) = match parse_fix_num(t, p1) {
        None => { return None; },
        Some(v) => v,
    };
    let p3 = match match_lit(t, p2, ",\"end_time\":") {
        None => { return None; },
        Some(p) => p,
    };
    // an end timestamp: `null` or a fixed-width number
    let (end, p4) = match match_lit(t, p3, "null") {
        Some(p) => (None, p),
        None => match parse_fix_num(t, p3) {
            None => { return None; },
            Some((e, p)) => (Some(e), p),
        },
    };
    let p5 = match match_lit(t, p4, ",\"session_type\":\"") {
        None => { return None; },
        Some(p) => p,
    };
    let (kind, p6) = match match_lit(t, p5, "Work") {
        Some(p) => (SessionType::Work, p),
        None => match match_lit(t, p5, "Break") {
            Some(p) => (SessionType::Break, p),
            None => match match_lit(t, p5, "Idle") {
                Some(p) => (SessionType::Idle, p),
                None => { return None; },
            },
        },
    };
    let p7 = match match_lit(t, p6, "\",\"note\":\"") {
        None => { return None; },
        Some(p) => p,
    };
    let (note_chars, p8) = match parse_str(t, p7) {
        None => { return None; },
        Some(v) => v,
    };
    let p9 = match match_lit(t, p8, "}") {
        None => { return None; },
        Some(p) => p,
    };
    if let Some(e) = end {
        if start > e {
            return None;
        }
    }
    let s = Session {
        start_time: start,
        end_time: end,
        session_type: kind,
        note: chars_to_string(note_chars),
    };
    Some((s, p9))
}

/// One or more sessions joined by commas, from `pos` on.
fn parse_list(t: &Vec<char>, pos: usize) -> (r: Option<(Vec<Session>, usize)>)
    requires
        pos <= t@.len(),
    ensures
        match r {
            Some((vs, p2)) => pos <= p2 <= t@.len() && p_list(t@.skip(pos as int)) == Some(
                (vs.deep_view(), t@.skip(p2 as int)),
            ) && crate::controller::all_wf(vs.deep_view()),
            None => p_list(t@.skip(pos as int)) is None,
        },
    decreases t@.len() - pos,
{
    match parse_session(t, pos) {
        None => None,
        Some((s, p1)) => {
            if p1 < t.len() && t[p1] == ',' {
                proof {
                    assert(t@.skip(p1 as int)[0] == t@[p1 as int]);
                    assert(t@.skip(p1 as int).drop_first() =~= t@.skip(p1 as int + 1));
                }
                match parse_list(t, p1 + 1) {
                    None => None,
                    Some((mut vs, p2)) => {
                        let ghost vs_pre = vs.deep_view();
                        vs.insert(0, s);
                        proof {
                            assert(vs.deep_view() =~= seq![s@] + vs_pre);
                        }
                        Some((vs, p2))
                    },
                }
            } else {
                let mut vs: Vec<Session> = Vec::new();
                vs.push(s);
                proof {
                    assert(vs.deep_view() =~= seq![s@]);
                }
                Some((vs, p1))
            }
        },
    }
}

/// The whole persisted text, parsed back into sessions; `None` exactly on
/// text the format does not produce.
pub fn decode_sessions(text: &str) -> (r: Option<Vec<Session>>)
    ensures
        match r {
            Some(vs) => p_sessions(text@) == Some(vs.deep_view()) && crate::controller::all_wf(
                vs.deep_view(),
            ),
            None => p_sessions(text@) is None,
        },
{
    let t = str_chars(text);
    if t.len() == 2 {
        if t[0] == '[' && t[1] == ']' {
            proof {
                assert(t@ =~= seq!['[', ']']);
            }
            let vs: Vec<Session> = Vec::new();
            proof {
                assert(vs.deep_view() =~= Seq::<SessionView>::empty());
            }
            return Some(vs);
        }
    }
    proof {
        assert(t@ != seq!['[', ']']);
    }
    let p1 = match match_lit(&t, 0, "[") {
        None => {
            proof {
                reveal_strlit("[");
                assert("["@ =~= seq!['[']);
                assert(t@.skip(0) =~= t@);
            }
            return None;
        },
        Some(p) => p,
    };
    proof {
        reveal_strlit("[");
        assert("["@ =~= seq!['[']);
        assert(t@.skip(0) =~= t@);
    }
    match parse_list(&t, p1) {
        None => None,
        Some((vs, p2)) => {
            if p2 == t.len() - 1 && t[p2] == ']' {
                proof {
                    assert(t@.skip(p2 as int) =~= seq![']']);
                }
                Some(vs)
            } else {
                proof {
                    if t@.skip(p2 as int) == seq![']'] {
                        assert(t@.skip(p2 as int).len() == 1);
                        assert(t@[p2 as int] == t@.skip(p2 as int)[0]);
                    }
                }
                None
            }
        },
    }
}

// --- parsing an encoded log gives the log back ---

proof fn lemma_dec_fix_len(n: int, w: nat)
    ensures
        dec_fix(n, w).len() == w,
    decreases w,
{
    if w > 0 {
        lemma_dec_fix_len(n % pow10((w - 1) as nat), (w - 1) as nat);
    }
}

/// A literal parses off the front of itself.
proof fn lemma_p_lit_hit(lit: Seq<char>, rest: Seq<char>)
    ensures
        p_lit(lit + rest, lit) == Some(rest),
{
    assert((lit + rest).take(lit.len() as int) =~= lit);
    assert((lit + rest).skip(lit.len() as int) =~= rest);
}

/// A fixed-width number parses back to its value.
proof fn lemma_p_fix_num_dec(n: int, w: nat, acc: int, rest: Seq<char>)
    requires
        0 <= n < pow10(w),
        0 <= acc,
    ensures
        p_fix_num(dec_fix(n, w) + rest, acc, w) == Some((acc * pow10(w) + n, rest)),
    decreases w,
{
    if w == 0 {
        assert(dec_fix(n, 0) + rest =~= rest);
        assert(acc * pow10(0) + n == acc);
    } else {
        let p = pow10((w - 1) as nat);
        lemma_pow10_pos((w - 1) as nat);
        assert(pow10(w) == 10 * p);
        let q = n / p;
        let r0 = n % p;
        vstd::arithmetic::div_mod::lemma_div_pos_is_pos(n, p);
        vstd::arithmetic::div_mod::lemma_mod_bound(n, p);
        assert(q < 10) by (nonlinear_arith)
            requires
                0 <= n < 10 * p && p >= 1 && q == n / p;
        vstd::arithmetic::div_mod::lemma_fundamental_div_mod(n, p);
        let t = dec_fix(n, w) + rest;
        let tail = dec_fix(r0, (w - 1) as nat) + rest;
        assert(t =~= seq![digit_char(q % 10)] + tail);
        vstd::arithmetic::div_mod::lemma_small_mod(q as nat, 10);
        assert(t[0] == digit_char(q));
        assert(digit_val(digit_char(q)) == q);
        assert(t.drop_first() =~= tail);
        lemma_p_fix_num_dec(r0, (w - 1) as nat, acc * 10 + q, rest);
        assert((acc * 10 + q) * p == acc * (10 * p) + q * p) by (nonlinear_arith);
        assert(p_fix_num(t, acc, w) == Some((acc * pow10(w) + n, rest)));
    }
}

/// An escaped string body followed by its closing quote parses back to
/// the original characters.
proof fn lemma_p_str_esc(s: Seq<char>, rest: Seq<char>)
    ensures
        p_str(esc(s) + seq!['"'] + rest) == Some((s, rest)),
    decreases s.len(),
{
    if s.len() == 0 {
        let t = esc(s) + seq!['"'] + rest;
        assert(t =~= seq!['"'] + rest);
        assert(t[0] == '"');
        assert(t.drop_first() =~= rest);
    } else {
        let c = s[0];
        let tail = esc(s.drop_first()) + seq!['"'] + rest;
        let t = esc(s) + seq!['"'] + rest;
        lemma_p_str_esc(s.drop_first(), rest);
        if c == '\\' || c == '"' {
            assert(t =~= seq!['\\', c] + tail);
            assert(t[0] == '\\' && t[1] == c);
            assert(t.len() >= 2);
            assert(t.skip(2) =~= tail);
            assert(seq![c] + s.drop_first() =~= s);
        } else {
            assert(t =~= seq![c] + tail);
            assert(t[0] == c);
            assert(t.drop_first() =~= tail);
            assert(seq![c] + s.drop_first() =~= s);
        }
    }
}

/// An encoded session parses back to itself, leaving the rest untouched.
#[verifier::rlimit(100)]
#[verifier::spinoff_prover]
proof fn lemma_p_session_enc(v: SessionView, rest: Seq<char>)
    requires
        v.wf(),
    ensures
        p_session(enc_session(v) + rest) == Some((v, rest)),
{
    reveal_strlit("{\"start_time\":");
    reveal_strlit(",\"end_time\":");
    reveal_strlit(",\"session_type\":\"");
    reveal_strlit("\",\"note\":\"");
    reveal_strlit("\"}");
    reveal_strlit("}");
    reveal_strlit("null");
    reveal_strlit("Work");
    reveal_strlit("Break");
    reveal_strlit("Idle");
    reveal_with_fuel(pow10, 13);
    let w = TS_DIGITS as nat;
    let start_txt = dec_fix(v.start_time, w);
    let end_txt = match v.end_time {
        Some(e) => dec_fix(e, w),
        None => null_seq(),
    };
    let kind_txt = kind_seq(v.session_type);
    let note_txt = esc(v.note);
    lemma_dec_fix_len(v.start_time, w);
    let r1 = start_txt + key_end() + end_txt + key_kind() + kind_txt + key_note() + note_txt
        + obj_close() + rest;
    let t = enc_session(v) + rest;
    assert(t =~= key_start() + r1);
    lemma_p_lit_hit(key_start(), r1);
    let r2 = key_end() + end_txt + key_kind() + kind_txt + key_note() + note_txt + obj_close()
        + rest;
    assert(r1 =~= start_txt + r2);
    lemma_p_fix_num_dec(v.start_time, w, 0, r2);
    let r3 = end_txt + key_kind() + kind_txt + key_note() + note_txt + obj_close() + rest;
    assert(r2 =~= key_end() + r3);
    lemma_p_lit_hit(key_end(), r3);
    let r4 = key_kind() + kind_txt + key_note() + note_txt + obj_close() + rest;
    assert(r3 =~= end_txt + r4);
    match v.end_time {
        Some(e) => {
            lemma_dec_fix_len(e, w);
            assert(r3[0] == end_txt[0]);
            assert(end_txt[0] == dec_fix(e, w)[0]);
            assert(dec_fix(e, w)[0] == digit_char(e / pow10(10) % 10));
            vstd::arithmetic::div_mod::lemma_mod_bound(e / pow10(10), 10);
            vstd::arithmetic::div_mod::lemma_div_pos_is_pos(e, pow10(10));
            assert(digit_char(e / pow10(10) % 10) != 'n');
            if p_lit(r3, null_seq()) is Some {
                assert(r3.take(4)[0] == r3[0]);
                assert(null_seq()[0] == 'n');
                assert(false);
            }
            lemma_p_fix_num_dec(e, w, 0, r4);
        },
        None => {
            lemma_p_lit_hit(null_seq(), r4);
        },
    }
    let r5 = kind_txt + key_note() + note_txt + obj_close() + rest;
    assert(r4 =~= key_kind() + r5);
    lemma_p_lit_hit(key_kind(), r5);
    let r6 = key_note() + note_txt + obj_close() + rest;
    assert(r5 =~= kind_txt + r6);
    match v.session_type {
        SessionType::Work => {
            lemma_p_lit_hit(kind_seq(SessionType::Work), r6);
        },
        SessionType::Break => {
            if p_lit(r5, kind_seq(SessionType::Work)) is Some {
                assert(r5.take(4)[0] == r5[0]);
                assert(r5[0] == 'B');
                assert(false);
            }
            lemma_p_lit_hit(kind_seq(SessionType::Break), r6);
        },
        SessionType::Idle => {
            if p_lit(r5, kind_seq(SessionType::Work)) is Some {
                assert(r5.take(4)[0] == r5[0]);
                assert(r5[0] == 'I');
                assert(false);
            }
            if p_lit(r5, kind_seq(SessionType::Break)) is Some {
                assert(r5.take(5)[0] == r5[0]);
                assert(r5[0] == 'I');
                assert(false);
            }
            lemma_p_lit_hit(kind_seq(SessionType::Idle), r6);
        },
    }
    let r7 = note_txt + obj_close() + rest;
    assert(r6 =~= key_note() + r7);
    lemma_p_lit_hit(key_note(), r7);
    let r8 = seq!['}'] + rest;
    assert(r7 =~= esc(v.note) + seq!['"'] + r8);
    lemma_p_str_esc(v.note, r8);
    assert(r8 =~= obj_end() + rest);
    lemma_p_lit_hit(obj_end(), rest);
    assert(p_session(t) == Some((v, rest)));
}

/// An encoded non-empty list parses back to itself, as long as what
/// follows does not begin with a separator.
proof fn lemma_p_list_enc(ss: Seq<SessionView>, rest: Seq<char>)
    requires
        ss.len() > 0,
        crate::controller::all_wf(ss),
        rest.len() > 0,
        rest[0] != ',',
    ensures
        p_list(enc_list(ss) + rest) == Some((ss, rest)),
    decreases ss.len(),
{
    reveal_strlit("{\"start_time\":");
    let t = enc_list(ss) + rest;
    assert(ss[0].wf());
    if ss.len() == 1 {
        assert(t =~= enc_session(ss[0]) + rest);
        lemma_p_session_enc(ss[0], rest);
        assert(seq![ss[0]] =~= ss);
    } else {
        let tail = ss.drop_first();
        assert(crate::controller::all_wf(tail)) by {
            assert(forall|i: int|
                0 <= i < tail.len() ==> (#[trigger] tail[i]).wf() && tail[i] == ss[i + 1]);
        }
        let r1 = seq![','] + enc_list(tail) + rest;
        assert(t =~= enc_session(ss[0]) + r1);
        lemma_p_session_enc(ss[0], r1);
        assert(r1[0] == ',');
        assert(enc_session(ss[0]).len() >= key_start().len());
        assert(r1.len() < t.len());
        assert(r1.drop_first() =~= enc_list(tail) + rest);
        lemma_p_list_enc(tail, rest);
        assert(seq![ss[0]] + tail =~= ss);
    }
}

/// The law of the codec: parsing an encoded well-formed log yields the
/// log itself.
pub proof fn lemma_codec_round_trip(ss: Seq<SessionView>)
    requires
        crate::controller::all_wf(ss),
    ensures
        p_sessions(enc_sessions(ss)) == Some(ss),
{
    reveal_strlit("{\"start_time\":");
    let t = enc_sessions(ss);
    if ss.len() == 0 {
        assert(t =~= seq!['[', ']']);
    } else {
        assert(enc_list(ss).len() >= key_start().len()) by {
            if ss.len() == 1 {
            } else {
            }
        }
        assert(t.len() > 2);
        assert(t != seq!['[', ']']);
        let r1 = enc_list(ss) + seq![']'];
        assert(t =~= seq!['['] + r1);
        lemma_p_lit_hit(seq!['['], r1);
        lemma_p_list_enc(ss, seq![']']);
        assert(p_sessions(t) == Some(ss));
    }
}

} // verus!
