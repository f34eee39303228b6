//! The window-record file format: a JSON array of flat objects, one per
//! record, written in one pass and consumed wholesale. Emitting and parsing
//! are both here, with the proof that parsing reads back exactly what
//! emitting wrote.
use crate::model::{FullscreenState, WindowRecord, WindowRecordV, fullscreen_code, record_wf};
use crate::num::{
    dec_int, digits_end, is_digit_char, lemma_digits_end, lemma_parse_int_of_dec, parse_i64,
    spec_parse_int,
};
use crate::strutil::{chars_vec, match_at, match_at_exec, string_from_chars};
use vstd::prelude::*;
use vstd::string::*;

verus! {

/// The escape of one character: the short escapes of the format, other
/// characters stand for themselves.
pub open spec fn esc_char(c: char) -> Seq<char> {
    if c == '"' {
        seq!['\\', '"']
    } else if c == '\\' {
        seq!['\\', '\\']
    } else if c == '\n' {
        seq!['\\', 'n']
    } else if c == '\t' {
        seq!['\\', 't']
    } else if c == '\r' {
        seq!['\\', 'r']
    } else {
        seq![c]
    }
}

/// The character an escape letter stands for.
pub open spec fn unesc_char(c: char) -> Option<char> {
    if c == '"' {
        Some('"')
    } else if c == '\\' {
        Some('\\')
    } else if c == 'n' {
        Some('\n')
    } else if c == 't' {
        Some('\t')
    } else if c == 'r' {
        Some('\r')
    } else {
        None
    }
}

/// A string's characters with the format's escapes applied.
pub open spec fn escape_str(s: Seq<char>) -> Seq<char>
    decreases s.len(),
{
    if s.len() == 0 {
        Seq::empty()
    } else {
        esc_char(s[0]) + escape_str(s.subrange(1, s.len() as int))
    }
}

/// A quoted, escaped string.
pub open spec fn jstring(s: Seq<char>) -> Seq<char> {
    seq!['"'] + escape_str(s) + seq!['"']
}

/// A rendered boolean.
pub open spec fn jbool(b: bool) -> Seq<char> {
    if b {
        seq!['t', 'r', 'u', 'e']
    } else {
        seq!['f', 'a', 'l', 's', 'e']
    }
}

/// A quoted key followed by its separating colon.
pub open spec fn jkey(k: Seq<char>) -> Seq<char> {
    seq!['"'] + k + seq!['"', ':']
}

/// A comma followed by a quoted key and its colon.
pub open spec fn comma_key(k: Seq<char>) -> Seq<char> {
    seq![','] + jkey(k)
}

pub open spec fn k_address() -> Seq<char> {
    seq!['a', 'd', 'd', 'r', 'e', 's', 's']
}

pub open spec fn k_pid() -> Seq<char> {
    seq!['p', 'i', 'd']
}

pub open spec fn k_monitor() -> Seq<char> {
    seq!['m', 'o', 'n', 'i', 't', 'o', 'r']
}

pub open spec fn k_workspace() -> Seq<char> {
    seq!['w', 'o', 'r', 'k', 's', 'p', 'a', 'c', 'e']
}

pub open spec fn k_floating() -> Seq<char> {
    seq!['f', 'l', 'o', 'a', 't', 'i', 'n', 'g']
}

pub open spec fn k_pinned() -> Seq<char> {
    seq!['p', 'i', 'n', 'n', 'e', 'd']
}

pub open spec fn k_fullscreen() -> Seq<char> {
    seq!['f', 'u', 'l', 'l', 's', 'c', 'r', 'e', 'e', 'n']
}

pub open spec fn k_x() -> Seq<char> {
    seq!['x']
}

pub open spec fn k_y() -> Seq<char> {
    seq!['y']
}

pub open spec fn k_w() -> Seq<char> {
    seq!['w']
}

pub open spec fn k_h() -> Seq<char> {
    seq!['h']
}

pub open spec fn k_class() -> Seq<char> {
    seq!['c', 'l', 'a', 's', 's']
}

pub open spec fn k_title() -> Seq<char> {
    seq!['t', 'i', 't', 'l', 'e']
}

/// The identity and process fields of an emitted record object.
pub open spec fn emit_rec_p1(r: WindowRecordV) -> Seq<char> {
    seq!['{'] + jkey(k_address()) + jstring(r.address) + comma_key(k_pid()) + dec_int(r.pid)
        + comma_key(k_monitor()) + dec_int(r.monitor)
}

/// The workspace and flag fields of an emitted record object.
pub open spec fn emit_rec_p2(r: WindowRecordV) -> Seq<char> {
    comma_key(k_workspace()) + dec_int(r.workspace) + comma_key(k_floating()) + jbool(r.floating)
        + comma_key(k_pinned()) + jbool(r.pinned)
}

/// The fullscreen and position fields of an emitted record object.
pub open spec fn emit_rec_p3(r: WindowRecordV) -> Seq<char> {
    comma_key(k_fullscreen()) + dec_int(fullscreen_code(r.fullscreen)) + comma_key(k_x())
        + dec_int(r.x) + comma_key(k_y()) + dec_int(r.y)
}

/// The size and hint fields of an emitted record object.
pub open spec fn emit_rec_p4(r: WindowRecordV) -> Seq<char> {
    comma_key(k_w()) + dec_int(r.w) + comma_key(k_h()) + dec_int(r.h) + comma_key(k_class())
        + jstring(r.class) + comma_key(k_title()) + jstring(r.title) + seq!['}']
}

/// One emitted record object, its fields in fixed order.
#[verifier::opaque]
pub open spec fn emit_record(r: WindowRecordV) -> Seq<char> {
    emit_rec_p1(r) + emit_rec_p2(r) + emit_rec_p3(r) + emit_rec_p4(r)
}

/// The emitted record objects, comma-separated.
pub open spec fn emit_items(rs: Seq<WindowRecordV>) -> Seq<char>
    decreases rs.len(),
{
    if rs.len() == 0 {
        Seq::empty()
    } else if rs.len() == 1 {
        emit_record(rs[0])
    } else {
        emit_record(rs[0]) + seq![','] + emit_items(rs.subrange(1, rs.len() as int))
    }
}

/// The whole emitted record file: a JSON array of the records, in order.
pub open spec fn emit_records(rs: Seq<WindowRecordV>) -> Seq<char> {
    seq!['['] + emit_items(rs) + seq![']']
}

/// The parse of a string's characters up to and over its closing quote.
pub open spec fn parse_jchars(s: Seq<char>, i: int) -> Option<(Seq<char>, int)>
    decreases s.len() - i,
{
    if i < 0 || i >= s.len() {
        None
    } else if s[i] == '"' {
        Some((Seq::empty(), i + 1))
    } else if s[i] == '\\' {
        if i + 1 < s.len() {
            match unesc_char(s[i + 1]) {
                Some(c) => match parse_jchars(s, i + 2) {
                    Some(te) => Some((seq![c] + te.0, te.1)),
                    None => None,
                },
                None => None,
            }
        } else {
            None
        }
    } else {
        match parse_jchars(s, i + 1) {
            Some(te) => Some((seq![s[i]] + te.0, te.1)),
            None => None,
        }
    }
}

/// The parse of a quoted string at `i`.
pub open spec fn parse_jstring(s: Seq<char>, i: int) -> Option<(Seq<char>, int)> {
    if 0 <= i < s.len() && s[i] == '"' {
        parse_jchars(s, i + 1)
    } else {
        None
    }
}

/// The index after a literal at `i`, when it is there.
pub open spec fn expect(s: Seq<char>, i: int, lit: Seq<char>) -> Option<int> {
    if match_at(s, i, lit) {
        Some(i + lit.len())
    } else {
        None
    }
}

/// The parse of a rendered boolean at `i`.
pub open spec fn parse_jbool(s: Seq<char>, i: int) -> Option<(bool, int)> {
    if match_at(s, i, jbool(true)) {
        Some((true, i + 4))
    } else if match_at(s, i, jbool(false)) {
        Some((false, i + 5))
    } else {
        None
    }
}

/// The parse of a comma, a key and an integer.
pub open spec fn parse_int_field(s: Seq<char>, i: int, k: Seq<char>) -> Option<(int, int)> {
    match expect(s, i, comma_key(k)) {
        Some(j) => spec_parse_int(s, j),
        None => None,
    }
}

/// The parse of a comma, a key and a boolean.
pub open spec fn parse_bool_field(s: Seq<char>, i: int, k: Seq<char>) -> Option<(bool, int)> {
    match expect(s, i, comma_key(k)) {
        Some(j) => parse_jbool(s, j),
        None => None,
    }
}

/// The parse of a comma, a key and a string.
pub open spec fn parse_str_field(s: Seq<char>, i: int, k: Seq<char>) -> Option<(Seq<char>, int)> {
    match expect(s, i, comma_key(k)) {
        Some(j) => parse_jstring(s, j),
        None => None,
    }
}

/// The numeric code of a persisted fullscreen state read back, when valid.
pub open spec fn fullscreen_of_code(n: int) -> Option<FullscreenState> {
    if n == 0 {
        Some(FullscreenState::Windowed)
    } else if n == 1 {
        Some(FullscreenState::Maximized)
    } else if n == 2 {
        Some(FullscreenState::Real)
    } else {
        None
    }
}

/// The parse of one record object at `i`: its value and the index after it,
/// or nothing when the object is malformed or a field is out of range.
#[verifier::opaque]
pub open spec fn spec_parse_record(s: Seq<char>, i: int) -> Option<(WindowRecordV, int)> {
    match expect(s, i, seq!['{'] + jkey(k_address())) {
        None => None,
        Some(j0) => match parse_jstring(s, j0) {
            None => None,
            Some(addr_e) => match parse_int_field(s, addr_e.1, k_pid()) {
                None => None,
                Some(pid_e) => if !(-0x8000_0000 <= pid_e.0 <= 0x7fff_ffff) {
                    None
                } else {
                    match parse_int_field(s, pid_e.1, k_monitor()) {
                        None => None,
                        Some(mon_e) => if !(-0x8000_0000 <= mon_e.0 <= 0x7fff_ffff) {
                            None
                        } else {
                            match parse_int_field(s, mon_e.1, k_workspace()) {
                                None => None,
                                Some(ws_e) => if !(-0x8000_0000 <= ws_e.0 <= 0x7fff_ffff) {
                                    None
                                } else {
                                    match parse_bool_field(s, ws_e.1, k_floating()) {
                                        None => None,
                                        Some(fl_e) => match parse_bool_field(
                                            s,
                                            fl_e.1,
                                            k_pinned(),
                                        ) {
                                            None => None,
                                            Some(pin_e) => match parse_int_field(
                                                s,
                                                pin_e.1,
                                                k_fullscreen(),
                                            ) {
                                                None => None,
                                                Some(fs_e) => match fullscreen_of_code(fs_e.0) {
                                                    None => None,
                                                    Some(fs) => spec_parse_record_tail(
                                                        s,
                                                        fs_e.1,
                                                        addr_e.0,
                                                        pid_e.0,
                                                        mon_e.0,
                                                        ws_e.0,
                                                        fl_e.0,
                                                        pin_e.0,
                                                        fs,
                                                    ),
                                                },
                                            },
                                        },
                                    }
                                },
                            }
                        },
                    }
                },
            },
        },
    }
}

/// The parse of a record object's geometry and hint fields.
pub open spec fn spec_parse_record_tail(
    s: Seq<char>,
    i: int,
    address: Seq<char>,
    pid: int,
    monitor: int,
    workspace: int,
    floating: bool,
    pinned: bool,
    fullscreen: FullscreenState,
) -> Option<(WindowRecordV, int)> {
    match parse_int_field(s, i, k_x()) {
        None => None,
        Some(x_e) => if !(-0x8000 <= x_e.0 <= 0x7fff) {
            None
        } else {
            match parse_int_field(s, x_e.1, k_y()) {
                None => None,
                Some(y_e) => if !(-0x8000 <= y_e.0 <= 0x7fff) {
                    None
                } else {
                    match parse_int_field(s, y_e.1, k_w()) {
                        None => None,
                        Some(w_e) => if !(-0x8000 <= w_e.0 <= 0x7fff) {
                            None
                        } else {
                            match parse_int_field(s, w_e.1, k_h()) {
                                None => None,
                                Some(h_e) => if !(-0x8000 <= h_e.0 <= 0x7fff) {
                                    None
                                } else {
                                    match parse_str_field(s, h_e.1, k_class()) {
                                        None => None,
                                        Some(cl_e) => match parse_str_field(
                                            s,
                                            cl_e.1,
                                            k_title(),
                                        ) {
                                            None => None,
                                            Some(ti_e) => match expect(s, ti_e.1, seq!['}']) {
                                                None => None,
                                                Some(end) => Some(
                                                    (
                                                        WindowRecordV {
                                                            address: address,
                                                            pid: pid,
                                                            monitor: monitor,
                                                            workspace: workspace,
                                                            floating: floating,
                                                            pinned: pinned,
                                                            fullscreen: fullscreen,
                                                            x: x_e.0,
                                                            y: y_e.0,
                                                            w: w_e.0,
                                                            h: h_e.0,
                                                            class: cl_e.0,
                                                            title: ti_e.0,
                                                        },
                                                        end,
                                                    ),
                                                ),
                                            },
                                        },
                                    }
                                },
                            }
                        },
                    }
                },
            }
        },
    }
}

/// A parsed string lies strictly ahead of where it began.
proof fn lemma_parse_jchars_advance(s: Seq<char>, i: int)
    ensures
        parse_jchars(s, i) matches Some(te) ==> i < te.1 <= s.len(),
    decreases s.len() - i,
{
    if 0 <= i < s.len() {
        if s[i] == '\\' {
            if i + 1 < s.len() {
                lemma_parse_jchars_advance(s, i + 2);
            }
        } else if s[i] != '"' {
            lemma_parse_jchars_advance(s, i + 1);
        }
    }
}

/// A parsed integer lies strictly ahead of where it began.
proof fn lemma_parse_int_advance(s: Seq<char>, i: int)
    ensures
        spec_parse_int(s, i) matches Some(ve) ==> i < ve.1 <= s.len(),
{
    let j = if 0 <= i < s.len() && s[i] == '-' {
        i + 1
    } else {
        i
    };
    if 0 <= j < s.len() && is_digit_char(s[j]) {
        lemma_digits_end(s, j);
        assert(digits_end(s, j) == digits_end(s, j + 1));
        lemma_digits_end(s, j + 1);
    }
}

/// A parsed record object lies strictly ahead of where it began.
proof fn lemma_parse_record_advance(s: Seq<char>, i: int)
    ensures
        spec_parse_record(s, i) matches Some(re) ==> i < re.1 <= s.len(),
{
    reveal(spec_parse_record);
    if spec_parse_record(s, i) is Some {
        let j0 = i + (seq!['{'] + jkey(k_address())).len();
        lemma_parse_jchars_advance(s, j0 + 1);
        let addr_e = parse_jstring(s, j0).unwrap();
        lemma_parse_int_advance(s, addr_e.1 + comma_key(k_pid()).len());
        let pid_e = parse_int_field(s, addr_e.1, k_pid()).unwrap();
        lemma_parse_int_advance(s, pid_e.1 + comma_key(k_monitor()).len());
        let mon_e = parse_int_field(s, pid_e.1, k_monitor()).unwrap();
        lemma_parse_int_advance(s, mon_e.1 + comma_key(k_workspace()).len());
        let ws_e = parse_int_field(s, mon_e.1, k_workspace()).unwrap();
        let fl_e = parse_bool_field(s, ws_e.1, k_floating()).unwrap();
        let pin_e = parse_bool_field(s, fl_e.1, k_pinned()).unwrap();
        lemma_parse_int_advance(s, pin_e.1 + comma_key(k_fullscreen()).len());
        let fs_e = parse_int_field(s, pin_e.1, k_fullscreen()).unwrap();
        lemma_parse_int_advance(s, fs_e.1 + comma_key(k_x()).len());
        let x_e = parse_int_field(s, fs_e.1, k_x()).unwrap();
        lemma_parse_int_advance(s, x_e.1 + comma_key(k_y()).len());
        let y_e = parse_int_field(s, x_e.1, k_y()).unwrap();
        lemma_parse_int_advance(s, y_e.1 + comma_key(k_w()).len());
        let w_e = parse_int_field(s, y_e.1, k_w()).unwrap();
        lemma_parse_int_advance(s, w_e.1 + comma_key(k_h()).len());
        let h_e = parse_int_field(s, w_e.1, k_h()).unwrap();
        lemma_parse_jchars_advance(s, h_e.1 + comma_key(k_class()).len() + 1);
        let cl_e = parse_str_field(s, h_e.1, k_class()).unwrap();
        lemma_parse_jchars_advance(s, cl_e.1 + comma_key(k_title()).len() + 1);
        let ti_e = parse_str_field(s, cl_e.1, k_title()).unwrap();
    }
}

/// The parse of the remaining record objects, after the first, given those
/// already read.
pub open spec fn parse_more_records(s: Seq<char>, i: int, acc: Seq<WindowRecordV>) -> Option<
    (Seq<WindowRecordV>, int),
>
    decreases s.len() - i
        when 0 <= i <= s.len()
        via parse_more_records_dec
{
    if i < s.len() && s[i] == ']' {
        Some((acc, i + 1))
    } else if i < s.len() && s[i] == ',' {
        match spec_parse_record(s, i + 1) {
            Some(re) => parse_more_records(s, re.1, acc.push(re.0)),
            None => None,
        }
    } else {
        None
    }
}

#[via_fn]
proof fn parse_more_records_dec(s: Seq<char>, i: int, acc: Seq<WindowRecordV>) {
    if i < s.len() && s[i] == ',' {
        lemma_parse_record_advance(s, i + 1);
    }
}

/// The parse of the whole record file: the records of the array, in order,
/// and the index after the closing bracket.
pub open spec fn spec_parse_records(s: Seq<char>, i: int) -> Option<(Seq<WindowRecordV>, int)> {
    if 0 <= i < s.len() && s[i] == '[' {
        if i + 1 < s.len() && s[i + 1] == ']' {
            Some((Seq::empty(), i + 2))
        } else {
            match spec_parse_record(s, i + 1) {
                Some(re) => parse_more_records(s, re.1, seq![re.0]),
                None => None,
            }
        }
    } else {
        None
    }
}

/// Escaping one more character appends its escape.
proof fn lemma_escape_snoc(s: Seq<char>, c: char)
    ensures
        escape_str(s.push(c)) == escape_str(s) + esc_char(c),
    decreases s.len(),
{
    if s.len() == 0 {
        assert(s.push(c)[0] == c);
        assert(s.push(c).subrange(1, 1) =~= Seq::<char>::empty());
        assert(escape_str(s.push(c)) == esc_char(c) + escape_str(s.push(c).subrange(1, 1)));
        assert(escape_str(s.push(c)) =~= escape_str(s) + esc_char(c));
    } else {
        let rest = s.subrange(1, s.len() as int);
        lemma_escape_snoc(rest, c);
        assert(s.push(c)[0] == s[0]);
        assert(s.push(c).subrange(1, s.push(c).len() as int) =~= rest.push(c));
        assert(escape_str(s.push(c)) == esc_char(s[0]) + escape_str(rest.push(c)));
        assert(escape_str(s) == esc_char(s[0]) + escape_str(rest));
        assert(escape_str(s.push(c)) =~= escape_str(s) + esc_char(c));
    }
}

/// Appends the characters of a literal.
fn push_lit_chars(out: &mut Vec<char>, lit: &str)
    ensures
        final(out)@ == old(out)@ + lit@,
{
    let v = chars_vec(lit);
    crate::strutil::append_vec(out, &v);
}

/// Appends a quoted, escaped string.
fn push_jstring(out: &mut Vec<char>, s: &str)
    ensures
        final(out)@ == old(out)@ + jstring(s@),
{
    out.push('"');
    let cv = chars_vec(s);
    let mut i: usize = 0;
    while i < cv.len()
        invariant
            cv@ == s@,
            i <= cv@.len(),
            out@ == old(out)@ + seq!['"'] + escape_str(cv@.subrange(0, i as int)),
        decreases cv@.len() - i,
    {
        let c = cv[i];
        if c == '"' {
            out.push('\\');
            out.push('"');
        } else if c == '\\' {
            out.push('\\');
            out.push('\\');
        } else if c == '\n' {
            out.push('\\');
            out.push('n');
        } else if c == '\t' {
            out.push('\\');
            out.push('t');
        } else if c == '\r' {
            out.push('\\');
            out.push('r');
        } else {
            out.push(c);
        }
        proof {
            lemma_escape_snoc(cv@.subrange(0, i as int), c);
            assert(cv@.subrange(0, i + 1 as int) =~= cv@.subrange(0, i as int).push(c));
            assert(out@ =~= old(out)@ + seq!['"'] + escape_str(cv@.subrange(0, i + 1 as int)));
        }
        i = i + 1;
    }
    out.push('"');
    proof {
        assert(cv@.subrange(0, cv@.len() as int) =~= s@);
        assert(out@ =~= old(out)@ + jstring(s@));
    }
}

/// Appends a rendered boolean.
fn push_jbool(out: &mut Vec<char>, b: bool)
    ensures
        final(out)@ == old(out)@ + jbool(b),
{
    if b {
        push_lit_chars(out, "true");
        proof {
            reveal_strlit("true");
            assert("true"@ =~= jbool(true));
        }
    } else {
        push_lit_chars(out, "false");
        proof {
            reveal_strlit("false");
            assert("false"@ =~= jbool(false));
        }
    }
}

fn push_rec_p1(out: &mut Vec<char>, r: &WindowRecord)
    ensures
        final(out)@ == old(out)@ + emit_rec_p1(r@),
{
    let ghost base = old(out)@;
    push_lit_chars(out, "{\"address\":");
    proof {
        reveal_strlit("{\"address\":");
        assert("{\"address\":"@ =~= seq!['{'] + jkey(k_address()));
    }
    push_jstring(out, r.address.as_str());
    let ghost g1 = out@;
    proof {
        assert(g1 =~= base + (seq!['{'] + jkey(k_address())) + jstring(r@.address));
    }
    push_lit_chars(out, ",\"pid\":");
    proof {
        reveal_strlit(",\"pid\":");
        assert(",\"pid\":"@ =~= comma_key(k_pid()));
    }
    crate::num::push_dec_i64(out, r.pid as i64);
    let ghost g2 = out@;
    proof {
        assert(g2 =~= g1 + comma_key(k_pid()) + dec_int(r@.pid));
    }
    push_lit_chars(out, ",\"monitor\":");
    proof {
        reveal_strlit(",\"monitor\":");
        assert(",\"monitor\":"@ =~= comma_key(k_monitor()));
    }
    crate::num::push_dec_i64(out, r.monitor as i64);
    proof {
        assert(out@ =~= g2 + comma_key(k_monitor()) + dec_int(r@.monitor));
        assert(out@ =~= base + emit_rec_p1(r@));
    }
}

fn push_rec_p2(out: &mut Vec<char>, r: &WindowRecord)
    ensures
        final(out)@ == old(out)@ + emit_rec_p2(r@),
{
    let ghost base = old(out)@;
    push_lit_chars(out, ",\"workspace\":");
    proof {
        reveal_strlit(",\"workspace\":");
        assert(",\"workspace\":"@ =~= comma_key(k_workspace()));
    }
    crate::num::push_dec_i64(out, r.workspace as i64);
    let ghost g1 = out@;
    proof {
        assert(g1 =~= base + comma_key(k_workspace()) + dec_int(r@.workspace));
    }
    push_lit_chars(out, ",\"floating\":");
    proof {
        reveal_strlit(",\"floating\":");
        assert(",\"floating\":"@ =~= comma_key(k_floating()));
    }
    push_jbool(out, r.floating);
    let ghost g2 = out@;
    proof {
        assert(g2 =~= g1 + comma_key(k_floating()) + jbool(r@.floating));
    }
    push_lit_chars(out, ",\"pinned\":");
    proof {
        reveal_strlit(",\"pinned\":");
        assert(",\"pinned\":"@ =~= comma_key(k_pinned()));
    }
    push_jbool(out, r.pinned);
    proof {
        assert(out@ =~= g2 + comma_key(k_pinned()) + jbool(r@.pinned));
        assert(out@ =~= base + emit_rec_p2(r@));
    }
}

fn push_rec_p3(out: &mut Vec<char>, r: &WindowRecord)
    ensures
        final(out)@ == old(out)@ + emit_rec_p3(r@),
{
    let ghost base = old(out)@;
    push_lit_chars(out, ",\"fullscreen\":");
    proof {
        reveal_strlit(",\"fullscreen\":");
        assert(",\"fullscreen\":"@ =~= comma_key(k_fullscreen()));
    }
    let code = crate::model::fullscreen_code_exec(r.fullscreen);
    crate::num::push_dec_i64(out, code as i64);
    let ghost g1 = out@;
    proof {
        assert(g1 =~= base + comma_key(k_fullscreen()) + dec_int(fullscreen_code(r@.fullscreen)));
    }
    push_lit_chars(out, ",\"x\":");
    proof {
        reveal_strlit(",\"x\":");
        assert(",\"x\":"@ =~= comma_key(k_x()));
    }
    crate::num::push_dec_i64(out, r.x as i64);
    let ghost g2 = out@;
    proof {
        assert(g2 =~= g1 + comma_key(k_x()) + dec_int(r@.x));
    }
    push_lit_chars(out, ",\"y\":");
    proof {
        reveal_strlit(",\"y\":");
        assert(",\"y\":"@ =~= comma_key(k_y()));
    }
    crate::num::push_dec_i64(out, r.y as i64);
    proof {
        assert(out@ =~= g2 + comma_key(k_y()) + dec_int(r@.y));
        assert(out@ =~= base + emit_rec_p3(r@));
    }
}

fn push_rec_p4(out: &mut Vec<char>, r: &WindowRecord)
    ensures
        final(out)@ == old(out)@ + emit_rec_p4(r@),
{
    let ghost base = old(out)@;
    push_lit_chars(out, ",\"w\":");
    proof {
        reveal_strlit(",\"w\":");
        assert(",\"w\":"@ =~= comma_key(k_w()));
    }
    crate::num::push_dec_i64(out, r.w as i64);
    let ghost g1 = out@;
    proof {
        assert(g1 =~= base + comma_key(k_w()) + dec_int(r@.w));
    }
    push_lit_chars(out, ",\"h\":");
    proof {
        reveal_strlit(",\"h\":");
        assert(",\"h\":"@ =~= comma_key(k_h()));
    }
    crate::num::push_dec_i64(out, r.h as i64);
    let ghost g2 = out@;
    proof {
        assert(g2 =~= g1 + comma_key(k_h()) + dec_int(r@.h));
    }
    push_lit_chars(out, ",\"class\":");
    proof {
        reveal_strlit(",\"class\":");
        assert(",\"class\":"@ =~= comma_key(k_class()));
    }
    push_jstring(out, r.class.as_str());
    let ghost g3 = out@;
    proof {
        assert(g3 =~= g2 + comma_key(k_class()) + jstring(r@.class));
    }
    push_lit_chars(out, ",\"title\":");
    proof {
        reveal_strlit(",\"title\":");
        assert(",\"title\":"@ =~= comma_key(k_title()));
    }
    push_jstring(out, r.title.as_str());
    out.push('}');
    proof {
        assert(out@ =~= g3 + comma_key(k_title()) + jstring(r@.title) + seq!['}']);
        assert(out@ =~= base + emit_rec_p4(r@));
    }
}

/// Appends one emitted record object.
fn emit_record_exec(out: &mut Vec<char>, r: &WindowRecord)
    ensures
        final(out)@ == old(out)@ + emit_record(r@),
{
    let ghost base = old(out)@;
    push_rec_p1(out, r);
    push_rec_p2(out, r);
    push_rec_p3(out, r);
    push_rec_p4(out, r);
    proof {
        reveal(emit_record);
        assert(out@ =~= base + emit_record(r@));
    }
}

/// Emitting one more record appends a separator and its object.
#[verifier::rlimit(100)]
proof fn lemma_emit_items_snoc(rs: Seq<WindowRecordV>, r: WindowRecordV)
    requires
        rs.len() >= 1,
    ensures
        emit_items(rs.push(r)) == emit_items(rs) + seq![','] + emit_record(r),
    decreases rs.len(),
{
    if rs.len() == 1 {
        assert(rs.push(r)[0] == rs[0]);
        assert(rs.push(r).subrange(1, 2) =~= seq![r]);
        assert(emit_items(seq![r]) == emit_record(r));
        assert(emit_items(rs.push(r)) =~= emit_items(rs) + seq![','] + emit_record(r));
    } else {
        let rest = rs.subrange(1, rs.len() as int);
        lemma_emit_items_snoc(rest, r);
        assert(rs.push(r).subrange(1, rs.push(r).len() as int) =~= rest.push(r));
        assert(rs.push(r)[0] == rs[0]);
        assert(emit_items(rs.push(r)) == emit_record(rs[0]) + seq![','] + emit_items(rest.push(r)));
        assert(emit_items(rs.push(r)) =~= emit_items(rs) + seq![','] + emit_record(r));
    }
}

/// Emits the whole record file: a JSON array of the records, in order.
pub fn emit_records_exec(rs: &Vec<WindowRecord>) -> (s: String)
    ensures
        s@ == emit_records(crate::adjust::windows_view(rs@)),
{
    let ghost rv = crate::adjust::windows_view(rs@);
    let mut v: Vec<char> = Vec::new();
    v.push('[');
    let mut i: usize = 0;
    proof {
        assert(emit_items(rv.subrange(0, 0)) =~= Seq::<char>::empty());
        assert(v@ =~= seq!['['] + emit_items(rv.subrange(0, 0)));
    }
    while i < rs.len()
        invariant
            i <= rs@.len(),
            rv == crate::adjust::windows_view(rs@),
            v@ == seq!['['] + emit_items(rv.subrange(0, i as int)),
        decreases rs@.len() - i,
    {
        if i > 0 {
            v.push(',');
            emit_record_exec(&mut v, &rs[i]);
            proof {
                lemma_emit_items_snoc(rv.subrange(0, i as int), rv[i as int]);
                assert(rv.subrange(0, i + 1 as int) =~= rv.subrange(0, i as int).push(
                    rv[i as int],
                ));
                assert(v@ =~= seq!['['] + emit_items(rv.subrange(0, i + 1 as int)));
            }
        } else {
            emit_record_exec(&mut v, &rs[i]);
            proof {
                assert(rv.subrange(0, 1) =~= seq![rv[0]]);
                assert(emit_items(seq![rv[0]]) == emit_record(rv[0]));
                assert(v@ =~= seq!['['] + emit_items(rv.subrange(0, 1)));
            }
        }
        i = i + 1;
    }
    v.push(']');
    proof {
        assert(rv.subrange(0, rv.len() as int) =~= rv);
        assert(v@ =~= emit_records(rv));
    }
    string_from_chars(&v)
}

fn unesc_exec(c: char) -> (r: Option<char>)
    ensures
        r == unesc_char(c),
{
    if c == '"' {
        Some('"')
    } else if c == '\\' {
        Some('\\')
    } else if c == 'n' {
        Some('\n')
    } else if c == 't' {
        Some('\t')
    } else if c == 'r' {
        Some('\r')
    } else {
        None
    }
}

/// Reads a quoted string back, undoing the escapes.
fn parse_jstring_exec(v: &Vec<char>, i: usize) -> (r: Option<(String, usize)>)
    requires
        i <= v@.len(),
    ensures
        match r {
            Some(se) => parse_jstring(v@, i as int) == Some((se.0@, se.1 as int)) && se.1
                <= v@.len(),
            None => parse_jstring(v@, i as int) is None,
        },
{
    let n = v.len();
    if i >= n || v[i] != '"' {
        return None;
    }
    let mut j = i + 1;
    let mut buf: Vec<char> = Vec::new();
    proof {
        assert(buf@ =~= Seq::<char>::empty());
    }
    loop
        invariant
            n == v@.len(),
            i < n,
            v@[i as int] == '"',
            i + 1 <= j <= n,
            parse_jchars(v@, i + 1) == (match parse_jchars(v@, j as int) {
                Some(te) => Some((buf@ + te.0, te.1)),
                None => None::<(Seq<char>, int)>,
            }),
        decreases n - j,
    {
        if j >= n {
            return None;
        }
        let c = v[j];
        if c == '"' {
            proof {
                assert(parse_jchars(v@, j as int) == Some((Seq::<char>::empty(), j + 1)));
                assert(buf@ + Seq::<char>::empty() =~= buf@);
                lemma_parse_jchars_advance(v@, i + 1);
            }
            return Some((string_from_chars(&buf), j + 1));
        } else if c == '\\' {
            if j + 1 >= n {
                return None;
            }
            match unesc_exec(v[j + 1]) {
                Some(u) => {
                    let ghost b0 = buf@;
                    buf.push(u);
                    proof {
                        assert forall|t: Seq<char>| b0 + (seq![u] + t) =~= buf@ + t by {}
                    }
                    j = j + 2;
                },
                None => {
                    return None;
                },
            }
        } else {
            let ghost b0 = buf@;
            buf.push(c);
            proof {
                assert forall|t: Seq<char>| b0 + (seq![c] + t) =~= buf@ + t by {}
            }
            j = j + 1;
        }
    }
}

/// The index after a literal, when it is there.
fn expect_exec(v: &Vec<char>, i: usize, lit: &Vec<char>) -> (r: Option<usize>)
    ensures
        match r {
            Some(j) => expect(v@, i as int, lit@) == Some(j as int) && j <= v@.len(),
            None => expect(v@, i as int, lit@) is None,
        },
{
    let n = v.len();
    if match_at_exec(v, i, lit) {
        assert(i + lit@.len() <= n as int);
        Some(i + lit.len())
    } else {
        None
    }
}

/// Reads a rendered boolean back.
fn parse_jbool_exec(v: &Vec<char>, i: usize) -> (r: Option<(bool, usize)>)
    ensures
        match r {
            Some(be) => parse_jbool(v@, i as int) == Some((be.0, be.1 as int)) && be.1
                <= v@.len(),
            None => parse_jbool(v@, i as int) is None,
        },
{
    let n = v.len();
    let lt = chars_vec("true");
    proof {
        reveal_strlit("true");
        assert(lt@ =~= jbool(true));
    }
    let lf = chars_vec("false");
    proof {
        reveal_strlit("false");
        assert(lf@ =~= jbool(false));
    }
    if match_at_exec(v, i, &lt) {
        assert(i + 4 <= n as int);
        Some((true, i + 4))
    } else if match_at_exec(v, i, &lf) {
        assert(i + 5 <= n as int);
        Some((false, i + 5))
    } else {
        None
    }
}

/// Reads a comma, a key and an integer back, within the given bounds.
fn parse_int_field_exec(
    v: &Vec<char>,
    i: usize,
    lit: &Vec<char>,
    lo: i64,
    hi: i64,
    Ghost(k): Ghost<Seq<char>>,
) -> (r: Option<(i64, usize)>)
    requires
        lit@ == comma_key(k),
        -0x7fff_ffff_ffff_ffff <= lo <= hi <= 0x7fff_ffff_ffff_ffff,
    ensures
        match r {
            Some(ve) => parse_int_field(v@, i as int, k) == Some((ve.0 as int, ve.1 as int))
                && lo <= ve.0 <= hi && ve.1 <= v@.len(),
            None => (match parse_int_field(v@, i as int, k) {
                Some(ve) => !(lo <= ve.0 <= hi),
                None => true,
            }),
        },
{
    let j = match expect_exec(v, i, lit) {
        Some(j) => j,
        None => {
            return None;
        },
    };
    let p = match parse_i64(v, j) {
        Some(p) => p,
        None => {
            proof {
                match spec_parse_int(v@, j as int) {
                    Some(ve) => {
                        assert(!(-0x7fff_ffff_ffff_ffff <= ve.0 <= 0x7fff_ffff_ffff_ffff));
                        assert(!(lo <= ve.0 <= hi));
                    },
                    None => {},
                }
            }
            return None;
        },
    };
    if p.0 < lo || p.0 > hi {
        return None;
    }
    let nv = v.len();
    proof {
        lemma_parse_int_advance(v@, j as int);
        match spec_parse_int(v@, j as int) {
            Some(ve) => {
                assert(0 <= ve.1 <= nv as int);
                assert(p.0 as int == ve.0 && p.1 as int == ve.1);
            },
            None => {
                assert(false);
            },
        }
    }
    Some(p)
}

/// Reads one record object back; a malformed or out-of-range object yields
/// nothing.
#[verifier::rlimit(100)]
pub fn parse_record_exec(v: &Vec<char>, i: usize) -> (r: Option<(WindowRecord, usize)>)
    requires
        i <= v@.len(),
    ensures
        match r {
            Some(re) => spec_parse_record(v@, i as int) == Some((re.0@, re.1 as int)) && re.1
                <= v@.len(),
            None => spec_parse_record(v@, i as int) is None,
        },
{
    proof {
        reveal(spec_parse_record);
    }
    let l_open = chars_vec("{\"address\":");
    proof {
        reveal_strlit("{\"address\":");
        assert(l_open@ =~= seq!['{'] + jkey(k_address()));
    }
    let j0 = match expect_exec(v, i, &l_open) {
        Some(j) => j,
        None => {
            return None;
        },
    };
    let (address, e0) = match parse_jstring_exec(v, j0) {
        Some(se) => se,
        None => {
            return None;
        },
    };
    let l_pid = chars_vec(",\"pid\":");
    proof {
        reveal_strlit(",\"pid\":");
        assert(l_pid@ =~= comma_key(k_pid()));
    }
    let (pid64, e1) = match parse_int_field_exec(
        v,
        e0,
        &l_pid,
        -0x8000_0000,
        0x7fff_ffff,
        Ghost(k_pid()),
    ) {
        Some(p) => p,
        None => {
            return None;
        },
    };
    let l_mon = chars_vec(",\"monitor\":");
    proof {
        reveal_strlit(",\"monitor\":");
        assert(l_mon@ =~= comma_key(k_monitor()));
    }
    let (mon64, e2) = match parse_int_field_exec(
        v,
        e1,
        &l_mon,
        -0x8000_0000,
        0x7fff_ffff,
        Ghost(k_monitor()),
    ) {
        Some(p) => p,
        None => {
            return None;
        },
    };
    let l_ws = chars_vec(",\"workspace\":");
    proof {
        reveal_strlit(",\"workspace\":");
        assert(l_ws@ =~= comma_key(k_workspace()));
    }
    let (ws64, e3) = match parse_int_field_exec(
        v,
        e2,
        &l_ws,
        -0x8000_0000,
        0x7fff_ffff,
        Ghost(k_workspace()),
    ) {
        Some(p) => p,
        None => {
            return None;
        },
    };
    let l_fl = chars_vec(",\"floating\":");
    proof {
        reveal_strlit(",\"floating\":");
        assert(l_fl@ =~= comma_key(k_floating()));
    }
    let j4 = match expect_exec(v, e3, &l_fl) {
        Some(j) => j,
        None => {
            return None;
        },
    };
    let (floating, e4) = match parse_jbool_exec(v, j4) {
        Some(p) => p,
        None => {
            return None;
        },
    };
    let l_pin = chars_vec(",\"pinned\":");
    proof {
        reveal_strlit(",\"pinned\":");
        assert(l_pin@ =~= comma_key(k_pinned()));
    }
    let j5 = match expect_exec(v, e4, &l_pin) {
        Some(j) => j,
        None => {
            return None;
        },
    };
    let (pinned, e5) = match parse_jbool_exec(v, j5) {
        Some(p) => p,
        None => {
            return None;
        },
    };
    let l_fs = chars_vec(",\"fullscreen\":");
    proof {
        reveal_strlit(",\"fullscreen\":");
        assert(l_fs@ =~= comma_key(k_fullscreen()));
    }
    let (fs64, e6) = match parse_int_field_exec(
        v,
        e5,
        &l_fs,
        -0x7fff_ffff_ffff_ffff,
        0x7fff_ffff_ffff_ffff,
        Ghost(k_fullscreen()),
    ) {
        Some(p) => p,
        None => {
            proof {
                match parse_int_field(v@, e5 as int, k_fullscreen()) {
                    Some(ve) => {
                        assert(!(-0x7fff_ffff_ffff_ffff <= ve.0 <= 0x7fff_ffff_ffff_ffff));
                        assert(fullscreen_of_code(ve.0) is None);
                    },
                    None => {},
                }
            }
            return None;
        },
    };
    let fullscreen = match crate::model::fullscreen_from_code(fs64) {
        Some(f) => f,
        None => {
            return None;
        },
    };
    parse_record_tail_exec(
        v,
        e6,
        i,
        address,
        pid64 as i32,
        mon64 as i32,
        ws64 as i32,
        floating,
        pinned,
        fullscreen,
    )
}

/// Reads a record object's geometry and hint fields back.
#[verifier::rlimit(100)]
fn parse_record_tail_exec(
    v: &Vec<char>,
    i: usize,
    start: usize,
    address: String,
    pid: i32,
    monitor: i32,
    workspace: i32,
    floating: bool,
    pinned: bool,
    fullscreen: FullscreenState,
) -> (r: Option<(WindowRecord, usize)>)
    requires
        i <= v@.len(),
        spec_parse_record(v@, start as int) == spec_parse_record_tail(
            v@,
            i as int,
            address@,
            pid as int,
            monitor as int,
            workspace as int,
            floating,
            pinned,
            fullscreen,
        ),
    ensures
        match r {
            Some(re) => spec_parse_record(v@, start as int) == Some((re.0@, re.1 as int)) && re.1
                <= v@.len(),
            None => spec_parse_record(v@, start as int) is None,
        },
{
    let l_x = chars_vec(",\"x\":");
    proof {
        reveal_strlit(",\"x\":");
        assert(l_x@ =~= comma_key(k_x()));
    }
    let (x64, e0) = match parse_int_field_exec(v, i, &l_x, -0x8000, 0x7fff, Ghost(k_x())) {
        Some(p) => p,
        None => {
            return None;
        },
    };
    let l_y = chars_vec(",\"y\":");
    proof {
        reveal_strlit(",\"y\":");
        assert(l_y@ =~= comma_key(k_y()));
    }
    let (y64, e1) = match parse_int_field_exec(v, e0, &l_y, -0x8000, 0x7fff, Ghost(k_y())) {
        Some(p) => p,
        None => {
            return None;
        },
    };
    let l_w = chars_vec(",\"w\":");
    proof {
        reveal_strlit(",\"w\":");
        assert(l_w@ =~= comma_key(k_w()));
    }
    let (w64, e2) = match parse_int_field_exec(v, e1, &l_w, -0x8000, 0x7fff, Ghost(k_w())) {
        Some(p) => p,
        None => {
            return None;
        },
    };
    let l_h = chars_vec(",\"h\":");
    proof {
        reveal_strlit(",\"h\":");
        assert(l_h@ =~= comma_key(k_h()));
    }
    let (h64, e3) = match parse_int_field_exec(v, e2, &l_h, -0x8000, 0x7fff, Ghost(k_h())) {
        Some(p) => p,
        None => {
            return None;
        },
    };
    let l_cl = chars_vec(",\"class\":");
    proof {
        reveal_strlit(",\"class\":");
        assert(l_cl@ =~= comma_key(k_class()));
    }
    let j4 = match expect_exec(v, e3, &l_cl) {
        Some(j) => j,
        None => {
            return None;
        },
    };
    let (class, e4) = match parse_jstring_exec(v, j4) {
        Some(se) => se,
        None => {
            return None;
        },
    };
    let l_ti = chars_vec(",\"title\":");
    proof {
        reveal_strlit(",\"title\":");
        assert(l_ti@ =~= comma_key(k_title()));
    }
    let j5 = match expect_exec(v, e4, &l_ti) {
        Some(j) => j,
        None => {
            return None;
        },
    };
    let (title, e5) = match parse_jstring_exec(v, j5) {
        Some(se) => se,
        None => {
            return None;
        },
    };
    let l_close = chars_vec("}");
    proof {
        reveal_strlit("}");
        assert(l_close@ =~= seq!['}']);
    }
    let end = match expect_exec(v, e5, &l_close) {
        Some(j) => j,
        None => {
            return None;
        },
    };
    let rec = WindowRecord {
        address,
        pid,
        monitor,
        workspace,
        floating,
        pinned,
        fullscreen,
        x: x64 as i16,
        y: y64 as i16,
        w: w64 as i16,
        h: h64 as i16,
        class,
        title,
    };
    Some((rec, end))
}

/// Reads the whole record file back: the records of the array, in order,
/// or nothing when the file is not exactly one well-formed array.
pub fn parse_records_exec(content: &str) -> (r: Option<Vec<WindowRecord>>)
    ensures
        match spec_parse_records(content@, 0) {
            Some(ve) => if ve.1 == content@.len() {
                r matches Some(recs) && crate::adjust::windows_view(recs@) == ve.0
            } else {
                r is None
            },
            None => r is None,
        },
{
    let v = chars_vec(content);
    let n = v.len();
    if n == 0 || v[0] != '[' {
        return None;
    }
    if 1 < n && v[1] == ']' {
        if n == 2 {
            let empty: Vec<WindowRecord> = Vec::new();
            proof {
                assert(crate::adjust::windows_view(empty@) =~= Seq::<WindowRecordV>::empty());
            }
            return Some(empty);
        } else {
            return None;
        }
    }
    let first = match parse_record_exec(&v, 1) {
        Some(re) => re,
        None => {
            return None;
        },
    };
    let mut acc: Vec<WindowRecord> = Vec::new();
    let mut i = first.1;
    acc.push(first.0);
    proof {
        assert(crate::adjust::windows_view(acc@) =~= seq![first.0@]);
        assert(spec_parse_records(v@, 0) == parse_more_records(
            v@,
            i as int,
            crate::adjust::windows_view(acc@),
        ));
    }
    loop
        invariant
            n == v@.len(),
            v@ == content@,
            i <= n,
            spec_parse_records(v@, 0) == parse_more_records(
                v@,
                i as int,
                crate::adjust::windows_view(acc@),
            ),
        decreases n - i,
    {
        if i < n && v[i] == ']' {
            if i + 1 == n {
                return Some(acc);
            } else {
                return None;
            }
        }
        if i < n && v[i] == ',' {
            let re = match parse_record_exec(&v, i + 1) {
                Some(re) => re,
                None => {
                    return None;
                },
            };
            proof {
                lemma_parse_record_advance(v@, i + 1);
            }
            let ghost a0 = crate::adjust::windows_view(acc@);
            acc.push(re.0);
            proof {
                assert(crate::adjust::windows_view(acc@) =~= a0.push(re.0@));
            }
            i = re.1;
        } else {
            return None;
        }
    }
}

/// The field values a record object can carry.
pub open spec fn record_ranged(r: WindowRecordV) -> bool {
    -0x8000_0000 <= r.pid <= 0x7fff_ffff && -0x8000_0000 <= r.monitor <= 0x7fff_ffff
        && -0x8000_0000 <= r.workspace <= 0x7fff_ffff && -0x8000 <= r.x <= 0x7fff && -0x8000 <= r.y
        <= 0x7fff && -0x8000 <= r.w <= 0x7fff && -0x8000 <= r.h <= 0x7fff
}

/// Parsing reads back exactly the escaped characters written, up to the
/// closing quote.
proof fn lemma_parse_jchars_emit(sc: Seq<char>, s: Seq<char>, i: int)
    requires
        crate::model::string_wf(sc),
        crate::strutil::match_at(s, i, escape_str(sc) + seq!['"']),
    ensures
        parse_jchars(s, i) == Some((sc, i + escape_str(sc).len() + 1)),
    decreases sc.len(),
{
    if sc.len() == 0 {
        crate::strutil::lemma_match_at_first(s, i, escape_str(sc) + seq!['"']);
        assert((escape_str(sc) + seq!['"'])[0] == '"');
        assert(parse_jchars(s, i) == Some((Seq::<char>::empty(), i + 1)));
    } else {
        let c = sc[0];
        let rest = sc.subrange(1, sc.len() as int);
        assert(crate::model::string_wf(rest));
        assert(escape_str(sc) == esc_char(c) + escape_str(rest));
        assert((esc_char(c) + escape_str(rest)) + seq!['"'] =~= esc_char(c) + (escape_str(rest)
            + seq!['"']));
        crate::strutil::lemma_match_at_concat(s, i, esc_char(c), escape_str(rest) + seq!['"']);
        let i2 = i + esc_char(c).len();
        lemma_parse_jchars_emit(rest, s, i2);
        assert(seq![c] + rest =~= sc);
        if c == '"' || c == '\\' || c == '\n' || c == '\t' || c == '\r' {
            assert(esc_char(c).len() == 2);
            assert(s[i] == esc_char(c)[0] && s[i + 1] == esc_char(c)[1]) by {
                assert(s.subrange(i, i + 2)[0] == s[i]);
                assert(s.subrange(i, i + 2)[1] == s[i + 1]);
            }
            assert(s[i] == '\\');
            assert(unesc_char(s[i + 1]) == Some(c));
            assert(i + 1 < s.len());
        } else {
            assert(esc_char(c) =~= seq![c]);
            crate::strutil::lemma_match_at_first(s, i, esc_char(c));
            assert(s[i] == c);
            assert(s[i] != '"' && s[i] != '\\');
        }
    }
}

/// Parsing reads back exactly the quoted string written.
proof fn lemma_parse_jstring_emit(sc: Seq<char>, s: Seq<char>, i: int)
    requires
        crate::model::string_wf(sc),
        crate::strutil::match_at(s, i, jstring(sc)),
    ensures
        parse_jstring(s, i) == Some((sc, i + jstring(sc).len())),
{
    crate::strutil::lemma_match_at_concat(s, i, seq!['"'] + escape_str(sc), seq!['"']);
    crate::strutil::lemma_match_at_concat(s, i, seq!['"'], escape_str(sc));
    crate::strutil::lemma_match_at_first(s, i, seq!['"']);
    crate::strutil::lemma_match_at_join(s, i + 1, escape_str(sc), seq!['"']);
    lemma_parse_jchars_emit(sc, s, i + 1);
}

/// Parsing reads back exactly the boolean written.
proof fn lemma_parse_jbool_emit(b: bool, s: Seq<char>, i: int)
    requires
        crate::strutil::match_at(s, i, jbool(b)),
    ensures
        parse_jbool(s, i) == Some((b, i + jbool(b).len())),
{
    if b {
    } else {
        if crate::strutil::match_at(s, i, jbool(true)) {
            crate::strutil::lemma_match_at_first(s, i, jbool(true));
            crate::strutil::lemma_match_at_first(s, i, jbool(false));
            assert(false);
        }
    }
}

/// Parsing reads back exactly an integer field written, when a non-digit
/// follows it.
proof fn lemma_parse_int_field_emit(s: Seq<char>, i: int, k: Seq<char>, n: int)
    requires
        crate::strutil::match_at(s, i, comma_key(k) + dec_int(n)),
        i + (comma_key(k) + dec_int(n)).len() < s.len() ==> !is_digit_char(
            s[i + (comma_key(k) + dec_int(n)).len()],
        ),
    ensures
        parse_int_field(s, i, k) == Some((n, i + (comma_key(k) + dec_int(n)).len())),
{
    crate::strutil::lemma_match_at_concat(s, i, comma_key(k), dec_int(n));
    lemma_parse_int_of_dec(s, i + comma_key(k).len(), n);
}

/// Parsing reads back exactly the geometry and hint fields written.
#[verifier::rlimit(100)]
proof fn lemma_parse_record_tail_emit(s: Seq<char>, i: int, r: WindowRecordV)
    requires
        record_wf(r),
        record_ranged(r),
        crate::strutil::match_at(
            s,
            i,
            comma_key(k_x()) + dec_int(r.x) + comma_key(k_y()) + dec_int(r.y) + emit_rec_p4(r),
        ),
    ensures
        spec_parse_record_tail(
            s,
            i,
            r.address,
            r.pid,
            r.monitor,
            r.workspace,
            r.floating,
            r.pinned,
            r.fullscreen,
        ) == Some(
            (
                r,
                i + (comma_key(k_x()) + dec_int(r.x) + comma_key(k_y()) + dec_int(r.y)
                    + emit_rec_p4(r)).len(),
            ),
        ),
{
    let ckx = comma_key(k_x());
    let dx = dec_int(r.x);
    let cky = comma_key(k_y());
    let dy = dec_int(r.y);
    let p4 = emit_rec_p4(r);
    crate::strutil::lemma_match_at_concat(s, i, ckx + dx + cky + dy, p4);
    crate::strutil::lemma_match_at_concat(s, i, ckx + dx + cky, dy);
    crate::strutil::lemma_match_at_concat(s, i, ckx + dx, cky);
    crate::strutil::lemma_match_at_concat(s, i, ckx, dx);
    let ix = i;
    let iy = i + ckx.len() + dx.len();
    let i4 = iy + cky.len() + dy.len();
    crate::strutil::lemma_match_at_join(s, ix, ckx, dx);
    crate::strutil::lemma_match_at_join(s, iy, cky, dy);
    crate::strutil::lemma_match_at_first(s, ix + ckx.len() + dx.len(), cky);
    lemma_parse_int_field_emit(s, ix, k_x(), r.x);
    let ckw = comma_key(k_w());
    let dw = dec_int(r.w);
    let ckh = comma_key(k_h());
    let dh = dec_int(r.h);
    let ckc = comma_key(k_class());
    let jc = jstring(r.class);
    let ckt = comma_key(k_title());
    let jt = jstring(r.title);
    assert(p4 == ckw + dw + ckh + dh + ckc + jc + ckt + jt + seq!['}']);
    crate::strutil::lemma_match_at_concat(s, i4, ckw + dw + ckh + dh + ckc + jc + ckt + jt, seq!['}']);
    crate::strutil::lemma_match_at_concat(s, i4, ckw + dw + ckh + dh + ckc + jc + ckt, jt);
    crate::strutil::lemma_match_at_concat(s, i4, ckw + dw + ckh + dh + ckc + jc, ckt);
    crate::strutil::lemma_match_at_concat(s, i4, ckw + dw + ckh + dh + ckc, jc);
    crate::strutil::lemma_match_at_concat(s, i4, ckw + dw + ckh + dh, ckc);
    crate::strutil::lemma_match_at_concat(s, i4, ckw + dw + ckh, dh);
    crate::strutil::lemma_match_at_concat(s, i4, ckw + dw, ckh);
    crate::strutil::lemma_match_at_concat(s, i4, ckw, dw);
    crate::strutil::lemma_match_at_first(s, i4, ckw);
    lemma_parse_int_field_emit(s, iy, k_y(), r.y);
    let iw = i4;
    let ih = iw + ckw.len() + dw.len();
    crate::strutil::lemma_match_at_join(s, iw, ckw, dw);
    crate::strutil::lemma_match_at_first(s, ih, ckh);
    lemma_parse_int_field_emit(s, iw, k_w(), r.w);
    let ic = ih + ckh.len() + dh.len();
    crate::strutil::lemma_match_at_join(s, ih, ckh, dh);
    crate::strutil::lemma_match_at_first(s, ic, ckc);
    lemma_parse_int_field_emit(s, ih, k_h(), r.h);
    lemma_parse_jstring_emit(r.class, s, ic + ckc.len());
    let it = ic + ckc.len() + jc.len();
    lemma_parse_jstring_emit(r.title, s, it + ckt.len());
    let iend = it + ckt.len() + jt.len();
    assert(spec_parse_record_tail(
        s,
        i,
        r.address,
        r.pid,
        r.monitor,
        r.workspace,
        r.floating,
        r.pinned,
        r.fullscreen,
    ) == Some(
        (
            WindowRecordV {
                address: r.address,
                pid: r.pid,
                monitor: r.monitor,
                workspace: r.workspace,
                floating: r.floating,
                pinned: r.pinned,
                fullscreen: r.fullscreen,
                x: r.x,
                y: r.y,
                w: r.w,
                h: r.h,
                class: r.class,
                title: r.title,
            },
            iend + 1,
        ),
    ));
}

/// Parsing reads back exactly the record object written.
#[verifier::rlimit(100)]
proof fn lemma_parse_record_emit(s: Seq<char>, i: int, r: WindowRecordV)
    requires
        record_wf(r),
        record_ranged(r),
        crate::strutil::match_at(s, i, emit_record(r)),
    ensures
        spec_parse_record(s, i) == Some((r, i + emit_record(r).len())),
{
    reveal(emit_record);
    reveal(spec_parse_record);
    let p1 = emit_rec_p1(r);
    let p2 = emit_rec_p2(r);
    let p3 = emit_rec_p3(r);
    let p4 = emit_rec_p4(r);
    crate::strutil::lemma_match_at_concat(s, i, p1 + p2 + p3, p4);
    crate::strutil::lemma_match_at_concat(s, i, p1 + p2, p3);
    crate::strutil::lemma_match_at_concat(s, i, p1, p2);
    let i2 = i + p1.len();
    let i3 = i2 + p2.len();
    let i4 = i3 + p3.len();
    // part 1: opening literal, address, pid, monitor
    let lop = seq!['{'] + jkey(k_address());
    let ja = jstring(r.address);
    let ckp = comma_key(k_pid());
    let dp = dec_int(r.pid);
    let ckm = comma_key(k_monitor());
    let dm = dec_int(r.monitor);
    assert(p1 == lop + ja + ckp + dp + ckm + dm);
    crate::strutil::lemma_match_at_concat(s, i, lop + ja + ckp + dp + ckm, dm);
    crate::strutil::lemma_match_at_concat(s, i, lop + ja + ckp + dp, ckm);
    crate::strutil::lemma_match_at_concat(s, i, lop + ja + ckp, dp);
    crate::strutil::lemma_match_at_concat(s, i, lop + ja, ckp);
    crate::strutil::lemma_match_at_concat(s, i, lop, ja);
    lemma_parse_jstring_emit(r.address, s, i + lop.len());
    let ip = i + lop.len() + ja.len();
    let im = ip + ckp.len() + dp.len();
    crate::strutil::lemma_match_at_join(s, ip, ckp, dp);
    crate::strutil::lemma_match_at_first(s, im, ckm);
    lemma_parse_int_field_emit(s, ip, k_pid(), r.pid);
    crate::strutil::lemma_match_at_join(s, im, ckm, dm);
    // part 2 starts with the workspace key
    let ckws = comma_key(k_workspace());
    let dws = dec_int(r.workspace);
    let ckfl = comma_key(k_floating());
    let jfl = jbool(r.floating);
    let ckpn = comma_key(k_pinned());
    let jpn = jbool(r.pinned);
    assert(p2 == ckws + dws + ckfl + jfl + ckpn + jpn);
    crate::strutil::lemma_match_at_concat(s, i2, ckws + dws + ckfl + jfl + ckpn, jpn);
    crate::strutil::lemma_match_at_concat(s, i2, ckws + dws + ckfl + jfl, ckpn);
    crate::strutil::lemma_match_at_concat(s, i2, ckws + dws + ckfl, jfl);
    crate::strutil::lemma_match_at_concat(s, i2, ckws + dws, ckfl);
    crate::strutil::lemma_match_at_concat(s, i2, ckws, dws);
    crate::strutil::lemma_match_at_first(s, i2, ckws);
    lemma_parse_int_field_emit(s, im, k_monitor(), r.monitor);
    let ifl = i2 + ckws.len() + dws.len();
    crate::strutil::lemma_match_at_join(s, i2, ckws, dws);
    crate::strutil::lemma_match_at_first(s, ifl, ckfl);
    lemma_parse_int_field_emit(s, i2, k_workspace(), r.workspace);
    lemma_parse_jbool_emit(r.floating, s, ifl + ckfl.len());
    let ipn = ifl + ckfl.len() + jfl.len();
    lemma_parse_jbool_emit(r.pinned, s, ipn + ckpn.len());
    // part 3: fullscreen, then the tail from the x field on
    let ckfs = comma_key(k_fullscreen());
    let dfs = dec_int(fullscreen_code(r.fullscreen));
    let ckx = comma_key(k_x());
    let dx = dec_int(r.x);
    let cky = comma_key(k_y());
    let dy = dec_int(r.y);
    assert(p3 == ckfs + dfs + ckx + dx + cky + dy);
    crate::strutil::lemma_match_at_concat(s, i3, ckfs + dfs + ckx + dx + cky, dy);
    crate::strutil::lemma_match_at_concat(s, i3, ckfs + dfs + ckx + dx, cky);
    crate::strutil::lemma_match_at_concat(s, i3, ckfs + dfs + ckx, dx);
    crate::strutil::lemma_match_at_concat(s, i3, ckfs + dfs, ckx);
    crate::strutil::lemma_match_at_concat(s, i3, ckfs, dfs);
    let ix = i3 + ckfs.len() + dfs.len();
    crate::strutil::lemma_match_at_join(s, i3, ckfs, dfs);
    crate::strutil::lemma_match_at_first(s, ix, ckx);
    lemma_parse_int_field_emit(s, i3, k_fullscreen(), fullscreen_code(r.fullscreen));
    assert(fullscreen_of_code(fullscreen_code(r.fullscreen)) == Some(r.fullscreen));
    // reassemble the tail match and finish
    crate::strutil::lemma_match_at_join(s, ix, ckx, dx);
    crate::strutil::lemma_match_at_join(s, ix + ckx.len() + dx.len(), cky, dy);
    crate::strutil::lemma_match_at_join(s, ix, ckx + dx, cky + dy);
    crate::strutil::lemma_match_at_join(s, ix, ckx + dx + (cky + dy), p4);
    assert(ckx + dx + (cky + dy) + p4 =~= ckx + dx + cky + dy + p4);
    lemma_parse_record_tail_emit(s, ix, r);
    assert(spec_parse_record(s, i) == Some((r, i + emit_record(r).len())));
}

/// An emitted record object starts with its opening brace.
proof fn lemma_emit_record_head(r: WindowRecordV)
    ensures
        emit_record(r).len() > 0,
        emit_record(r)[0] == '{',
{
    reveal(emit_record);
    assert(emit_record(r)[0] == emit_rec_p1(r)[0]);
    assert(emit_rec_p1(r)[0] == (seq!['{'] + jkey(k_address()))[0]);
}

/// The emitted objects after the first: each preceded by its separator.
pub open spec fn emit_more(rs: Seq<WindowRecordV>) -> Seq<char>
    decreases rs.len(),
{
    if rs.len() == 0 {
        Seq::empty()
    } else {
        seq![','] + emit_record(rs[0]) + emit_more(rs.subrange(1, rs.len() as int))
    }
}

/// The emitted items split as the first object and the rest.
proof fn lemma_items_decomp(rs: Seq<WindowRecordV>)
    requires
        rs.len() >= 1,
    ensures
        emit_items(rs) == emit_record(rs[0]) + emit_more(rs.subrange(1, rs.len() as int)),
    decreases rs.len(),
{
    let rest = rs.subrange(1, rs.len() as int);
    if rs.len() == 1 {
        assert(rest =~= Seq::<WindowRecordV>::empty());
        assert(emit_more(rest) =~= Seq::<char>::empty());
        assert(emit_items(rs) =~= emit_record(rs[0]) + emit_more(rest));
    } else {
        lemma_items_decomp(rest);
        assert(rest.subrange(1, rest.len() as int) =~= rs.subrange(2, rs.len() as int));
        assert(emit_items(rs) == emit_record(rs[0]) + seq![','] + emit_items(rest));
        assert(emit_more(rest) == seq![','] + emit_record(rest[0]) + emit_more(
            rest.subrange(1, rest.len() as int),
        ));
        assert(emit_items(rs) =~= emit_record(rs[0]) + emit_more(rest));
    }
}

/// Parsing reads back exactly the remaining emitted objects.
#[verifier::rlimit(100)]
proof fn lemma_parse_more_emit(
    s: Seq<char>,
    i: int,
    rest_rs: Seq<WindowRecordV>,
    acc: Seq<WindowRecordV>,
)
    requires
        forall|t: int|
            0 <= t < rest_rs.len() ==> record_wf(#[trigger] rest_rs[t]) && record_ranged(
                rest_rs[t],
            ),
        crate::strutil::match_at(s, i, emit_more(rest_rs) + seq![']']),
    ensures
        parse_more_records(s, i, acc) == Some((acc + rest_rs, i + emit_more(rest_rs).len() + 1)),
    decreases rest_rs.len(),
{
    if rest_rs.len() == 0 {
        assert(emit_more(rest_rs) + seq![']'] =~= seq![']']);
        crate::strutil::lemma_match_at_first(s, i, emit_more(rest_rs) + seq![']']);
        assert(s[i] == ']');
        assert(acc + rest_rs =~= acc);
        assert(parse_more_records(s, i, acc) == Some((acc, i + 1)));
    } else {
        let r0 = rest_rs[0];
        let rest = rest_rs.subrange(1, rest_rs.len() as int);
        assert(forall|t: int|
            0 <= t < rest.len() ==> record_wf(#[trigger] rest[t]) && record_ranged(rest[t]));
        assert(emit_more(rest_rs) == seq![','] + emit_record(r0) + emit_more(rest));
        assert(emit_more(rest_rs) + seq![']'] =~= seq![','] + (emit_record(r0) + (emit_more(rest)
            + seq![']'])));
        crate::strutil::lemma_match_at_concat(
            s,
            i,
            seq![','],
            emit_record(r0) + (emit_more(rest) + seq![']']),
        );
        crate::strutil::lemma_match_at_first(s, i, seq![',']);
        assert(s[i] == ',');
        crate::strutil::lemma_match_at_concat(
            s,
            i + 1,
            emit_record(r0),
            emit_more(rest) + seq![']'],
        );
        lemma_parse_record_emit(s, i + 1, r0);
        let e = i + 1 + emit_record(r0).len();
        lemma_parse_more_emit(s, e, rest, acc.push(r0));
        assert(acc.push(r0) + rest =~= acc + rest_rs);
        assert(parse_more_records(s, i, acc) == Some(
            (acc + rest_rs, i + emit_more(rest_rs).len() + 1),
        ));
    }
}

/// Round trip of the record file: parsing an emitted list of well-formed,
/// in-range records yields the records back, in order and in full.
#[verifier::rlimit(100)]
pub proof fn lemma_records_round_trip(rs: Seq<WindowRecordV>)
    requires
        forall|t: int|
            0 <= t < rs.len() ==> record_wf(#[trigger] rs[t]) && record_ranged(rs[t]),
    ensures
        spec_parse_records(emit_records(rs), 0) == Some((rs, emit_records(rs).len() as int)),
{
    let s = emit_records(rs);
    assert(s.subrange(0, s.len() as int) =~= s);
    assert(crate::strutil::match_at(s, 0, s));
    if rs.len() == 0 {
        assert(emit_items(rs) =~= Seq::<char>::empty());
        assert(s =~= seq!['[', ']']);
        assert(s[0] == '[' && s[1] == ']');
        assert(rs =~= Seq::<WindowRecordV>::empty());
        assert(spec_parse_records(s, 0) == Some((Seq::<WindowRecordV>::empty(), 2int)));
    } else {
        lemma_items_decomp(rs);
        let rest = rs.subrange(1, rs.len() as int);
        let items = emit_items(rs);
        let em = emit_more(rest);
        assert(s == seq!['['] + items + seq![']']);
        crate::strutil::lemma_match_at_concat(s, 0, seq!['['] + items, seq![']']);
        crate::strutil::lemma_match_at_concat(s, 0, seq!['['], items);
        crate::strutil::lemma_match_at_first(s, 0, seq!['[']);
        assert(items == emit_record(rs[0]) + em);
        crate::strutil::lemma_match_at_concat(s, 1, emit_record(rs[0]), em);
        lemma_emit_record_head(rs[0]);
        crate::strutil::lemma_match_at_first(s, 1, emit_record(rs[0]));
        assert(s[1] == '{');
        lemma_parse_record_emit(s, 1, rs[0]);
        let e: int = 1 + emit_record(rs[0]).len() as int;
        crate::strutil::lemma_match_at_join(s, e, em, seq![']']);
        assert(forall|t: int|
            0 <= t < rest.len() ==> record_wf(#[trigger] rest[t]) && record_ranged(rest[t]));
        lemma_parse_more_emit(s, e, rest, seq![rs[0]]);
        assert(seq![rs[0]] + rest =~= rs);
        assert(spec_parse_records(s, 0) == Some((rs, s.len() as int)));
    }
}

} // verus!
