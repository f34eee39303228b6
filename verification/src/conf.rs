//! The launch-directive file format: one line per directive,
//! `[token1;token2;...] command`, tokens in a fixed order with empty ones
//! omitted. Rendering and parsing are both here, with the proof that
//! parsing reads back exactly what rendering wrote.
use crate::model::{
    DirectiveV, LaunchDirective, WindowRecord, WindowRecordV, directive_wf, fullscreen_code,
    special_workspace_id, token_wf,
};
use crate::num::{dec_int, is_digit_char, lemma_dec_digits, push_dec_i64};
use crate::strutil::{
    chars_vec, lemma_skip_to_char, lemma_skip_to_char_match, skip_to_char, skip_to_char_vec,
    string_from_chars, sub_vec,
};
use vstd::prelude::*;
use vstd::string::*;

verus! {

pub open spec fn monitor_word() -> Seq<char> {
    seq!['m', 'o', 'n', 'i', 't', 'o', 'r', ' ']
}

pub open spec fn workspace_word() -> Seq<char> {
    seq!['w', 'o', 'r', 'k', 's', 'p', 'a', 'c', 'e', ' ']
}

pub open spec fn silent_word() -> Seq<char> {
    seq![' ', 's', 'i', 'l', 'e', 'n', 't']
}

pub open spec fn special_word() -> Seq<char> {
    seq!['s', 'p', 'e', 'c', 'i', 'a', 'l']
}

pub open spec fn float_word() -> Seq<char> {
    seq!['f', 'l', 'o', 'a', 't']
}

pub open spec fn move_word() -> Seq<char> {
    seq!['m', 'o', 'v', 'e', ' ']
}

pub open spec fn size_word() -> Seq<char> {
    seq!['s', 'i', 'z', 'e', ' ']
}

pub open spec fn pin_word() -> Seq<char> {
    seq!['p', 'i', 'n']
}

pub open spec fn fullscreenstate_word() -> Seq<char> {
    seq!['f', 'u', 'l', 'l', 's', 'c', 'r', 'e', 'e', 'n', 's', 't', 'a', 't', 'e', ' ']
}

/// The monitor placement token.
pub open spec fn monitor_token(r: WindowRecordV) -> Seq<char> {
    monitor_word() + dec_int(r.monitor)
}

/// The workspace placement token; the sentinel renders as the special
/// workspace.
pub open spec fn workspace_token(r: WindowRecordV) -> Seq<char> {
    if r.workspace == special_workspace_id() {
        workspace_word() + special_word() + silent_word()
    } else {
        workspace_word() + dec_int(r.workspace) + silent_word()
    }
}

/// The exact-position placement token.
pub open spec fn move_token(r: WindowRecordV) -> Seq<char> {
    move_word() + dec_int(r.x) + seq![' '] + dec_int(r.y)
}

/// The exact-size placement token.
pub open spec fn size_token(r: WindowRecordV) -> Seq<char> {
    size_word() + dec_int(r.w) + seq![' '] + dec_int(r.h)
}

/// The fullscreen-state placement token.
pub open spec fn fullscreen_token(r: WindowRecordV) -> Seq<char> {
    fullscreenstate_word() + dec_int(fullscreen_code(r.fullscreen))
}

/// The placement tokens of one record, in the fixed rendering order, the
/// conditional ones present only when their flag is set.
pub open spec fn record_tokens(r: WindowRecordV) -> Seq<Seq<char>> {
    seq![monitor_token(r), workspace_token(r)] + (if r.floating {
        seq![float_word()]
    } else {
        Seq::empty()
    }) + seq![move_token(r), size_token(r)] + (if r.pinned {
        seq![pin_word()]
    } else {
        Seq::empty()
    }) + seq![fullscreen_token(r)]
}

/// The directive a captured window turns into, given its resolved command.
pub open spec fn directive_of(r: WindowRecordV, command: Seq<char>) -> DirectiveV {
    DirectiveV { tokens: record_tokens(r), command: command }
}

/// The tokens joined with the separator.
pub open spec fn join_tokens(ts: Seq<Seq<char>>) -> Seq<char>
    decreases ts.len(),
{
    if ts.len() == 0 {
        Seq::empty()
    } else if ts.len() == 1 {
        ts[0]
    } else {
        ts[0] + seq![';'] + join_tokens(ts.subrange(1, ts.len() as int))
    }
}

/// One rendered directive line, without its line break.
pub open spec fn render_line_body(d: DirectiveV) -> Seq<char> {
    seq!['['] + join_tokens(d.tokens) + seq![']', ' '] + d.command
}

/// One rendered directive line.
pub open spec fn render_line(d: DirectiveV) -> Seq<char> {
    render_line_body(d) + seq!['\n']
}

/// The whole rendered directive file.
pub open spec fn render_conf(ds: Seq<DirectiveV>) -> Seq<char>
    decreases ds.len(),
{
    if ds.len() == 0 {
        Seq::empty()
    } else {
        render_line(ds[0]) + render_conf(ds.subrange(1, ds.len() as int))
    }
}

/// The token list a separator-joined string splits back into.
pub open spec fn split_tokens(s: Seq<char>) -> Seq<Seq<char>>
    decreases s.len()
        via split_tokens_dec
{
    let e = skip_to_char(s, 0, ';');
    if e >= s.len() {
        seq![s]
    } else {
        seq![s.subrange(0, e)] + split_tokens(s.subrange(e + 1, s.len() as int))
    }
}

#[via_fn]
proof fn split_tokens_dec(s: Seq<char>) {
    lemma_skip_to_char(s, 0, ';');
}

/// The parse of one directive line body; malformed lines parse to nothing.
pub open spec fn parse_line(line: Seq<char>) -> Option<DirectiveV> {
    if line.len() < 2 || line[0] != '[' {
        None
    } else {
        let cb = skip_to_char(line, 1, ']');
        if cb >= line.len() || cb + 1 >= line.len() || line[cb + 1] != ' ' {
            None
        } else {
            let toks = split_tokens(line.subrange(1, cb));
            if forall|k: int| 0 <= k < toks.len() ==> (#[trigger] toks[k]).len() > 0 {
                Some(DirectiveV { tokens: toks, command: line.subrange(cb + 2, line.len() as int) })
            } else {
                None
            }
        }
    }
}

/// The parse of a whole directive file: its lines in order, the malformed
/// ones skipped.
pub open spec fn parse_conf(s: Seq<char>) -> Seq<DirectiveV>
    decreases s.len()
        via parse_conf_dec
{
    if s.len() == 0 {
        Seq::empty()
    } else {
        let e = skip_to_char(s, 0, '\n');
        let line = s.subrange(0, e);
        let rest = if e >= s.len() {
            Seq::empty()
        } else {
            parse_conf(s.subrange(e + 1, s.len() as int))
        };
        match parse_line(line) {
            Some(d) => seq![d] + rest,
            None => rest,
        }
    }
}

#[via_fn]
proof fn parse_conf_dec(s: Seq<char>) {
    lemma_skip_to_char(s, 0, '\n');
}

/// The characters a token may not contain.
pub open spec fn no_separators(t: Seq<char>) -> bool {
    forall|j: int| 0 <= j < t.len() ==> (#[trigger] t[j]) != ';' && t[j] != ']' && t[j] != '\n'
}

/// A decimal rendering consists of digits and at most a sign, none of which
/// is a separator.
proof fn lemma_dec_int_ok(n: int)
    ensures
        no_separators(dec_int(n)),
        dec_int(n).len() > 0,
{
    let m: nat = if n < 0 {
        (-n) as nat
    } else {
        n as nat
    };
    lemma_dec_digits(m);
    assert forall|j: int| 0 <= j < dec_int(n).len() implies (#[trigger] dec_int(n)[j]) != ';'
        && dec_int(n)[j] != ']' && dec_int(n)[j] != '\n' by {
        if n < 0 {
            if j > 0 {
                assert(dec_int(n)[j] == crate::num::dec_digits(m)[j - 1]);
                assert(is_digit_char(dec_int(n)[j]));
            }
        } else {
            assert(is_digit_char(dec_int(n)[j]));
        }
    }
}

/// Every placement token of a record is well-formed.
pub proof fn lemma_record_tokens_wf(r: WindowRecordV)
    ensures
        record_tokens(r).len() > 0,
        forall|i: int| 0 <= i < record_tokens(r).len() ==> token_wf(
            #[trigger] record_tokens(r)[i],
        ),
{
    lemma_dec_int_ok(r.monitor);
    lemma_dec_int_ok(r.workspace);
    lemma_dec_int_ok(r.x);
    lemma_dec_int_ok(r.y);
    lemma_dec_int_ok(r.w);
    lemma_dec_int_ok(r.h);
    lemma_dec_int_ok(fullscreen_code(r.fullscreen));
    assert(token_wf(monitor_token(r)));
    assert(token_wf(workspace_token(r)));
    assert(token_wf(move_token(r)));
    assert(token_wf(size_token(r)));
    assert(token_wf(float_word()));
    assert(token_wf(pin_word()));
    assert(token_wf(fullscreen_token(r)));
}

/// A directive built from a record and a line-break-free command is
/// well-formed.
pub proof fn lemma_directive_of_wf(r: WindowRecordV, command: Seq<char>)
    requires
        forall|j: int| 0 <= j < command.len() ==> (#[trigger] command[j]) != '\n',
    ensures
        directive_wf(directive_of(r, command)),
{
    lemma_record_tokens_wf(r);
}

fn monitor_token_exec(r: &WindowRecord) -> (t: String)
    ensures
        t@ == monitor_token(r@),
{
    let mut v = chars_vec("monitor ");
    proof {
        reveal_strlit("monitor ");
        assert(v@ =~= monitor_word());
    }
    push_dec_i64(&mut v, r.monitor as i64);
    string_from_chars(&v)
}

fn workspace_token_exec(r: &WindowRecord) -> (t: String)
    ensures
        t@ == workspace_token(r@),
{
    if r.workspace == -99 {
        let v = chars_vec("workspace special silent");
        proof {
            reveal_strlit("workspace special silent");
            assert(v@ =~= workspace_word() + special_word() + silent_word());
        }
        string_from_chars(&v)
    } else {
        let mut v = chars_vec("workspace ");
        proof {
            reveal_strlit("workspace ");
            assert(v@ =~= workspace_word());
        }
        push_dec_i64(&mut v, r.workspace as i64);
        let tail = chars_vec(" silent");
        proof {
            reveal_strlit(" silent");
            assert(tail@ =~= silent_word());
        }
        crate::strutil::append_vec(&mut v, &tail);
        string_from_chars(&v)
    }
}

fn move_token_exec(r: &WindowRecord) -> (t: String)
    ensures
        t@ == move_token(r@),
{
    let mut v = chars_vec("move ");
    proof {
        reveal_strlit("move ");
        assert(v@ =~= move_word());
    }
    push_dec_i64(&mut v, r.x as i64);
    v.push(' ');
    push_dec_i64(&mut v, r.y as i64);
    proof {
        assert(v@ =~= move_word() + dec_int(r@.x) + seq![' '] + dec_int(r@.y));
    }
    string_from_chars(&v)
}

fn size_token_exec(r: &WindowRecord) -> (t: String)
    ensures
        t@ == size_token(r@),
{
    let mut v = chars_vec("size ");
    proof {
        reveal_strlit("size ");
        assert(v@ =~= size_word());
    }
    push_dec_i64(&mut v, r.w as i64);
    v.push(' ');
    push_dec_i64(&mut v, r.h as i64);
    proof {
        assert(v@ =~= size_word() + dec_int(r@.w) + seq![' '] + dec_int(r@.h));
    }
    string_from_chars(&v)
}

fn fullscreen_token_exec(r: &WindowRecord) -> (t: String)
    ensures
        t@ == fullscreen_token(r@),
{
    let mut v = chars_vec("fullscreenstate ");
    proof {
        reveal_strlit("fullscreenstate ");
        assert(v@ =~= fullscreenstate_word());
    }
    let code = crate::model::fullscreen_code_exec(r.fullscreen);
    push_dec_i64(&mut v, code as i64);
    string_from_chars(&v)
}

/// Builds the directive for one captured window: its placement tokens, in
/// the fixed order with empty ones omitted, and its resolved command.
pub fn directive_for(r: &WindowRecord, command: String) -> (d: LaunchDirective)
    requires
        forall|j: int| 0 <= j < command@.len() ==> (#[trigger] command@[j]) != '\n',
    ensures
        d@ == directive_of(r@, command@),
        directive_wf(d@),
{
    let mut tokens: Vec<String> = Vec::new();
    tokens.push(monitor_token_exec(r));
    tokens.push(workspace_token_exec(r));
    if r.floating {
        let v = chars_vec("float");
        proof {
            reveal_strlit("float");
            assert(v@ =~= float_word());
        }
        tokens.push(string_from_chars(&v));
    }
    tokens.push(move_token_exec(r));
    tokens.push(size_token_exec(r));
    if r.pinned {
        let v = chars_vec("pin");
        proof {
            reveal_strlit("pin");
            assert(v@ =~= pin_word());
        }
        tokens.push(string_from_chars(&v));
    }
    tokens.push(fullscreen_token_exec(r));
    let d = LaunchDirective { tokens, command };
    proof {
        assert(d@.tokens =~= record_tokens(r@));
        lemma_directive_of_wf(r@, d@.command);
    }
    d
}

/// Joining one more token appends a separator and the token.
proof fn lemma_join_snoc(ts: Seq<Seq<char>>, t: Seq<char>)
    requires
        ts.len() >= 1,
    ensures
        join_tokens(ts.push(t)) == join_tokens(ts) + seq![';'] + t,
    decreases ts.len(),
{
    if ts.len() == 1 {
        assert(ts.push(t)[0] == ts[0]);
        assert(ts.push(t).subrange(1, 2) =~= seq![t]);
        assert(join_tokens(seq![t]) == t);
        assert(join_tokens(ts.push(t)) =~= join_tokens(ts) + seq![';'] + t);
    } else {
        lemma_join_snoc(ts.subrange(1, ts.len() as int), t);
        assert(ts.push(t).subrange(1, ts.push(t).len() as int) =~= ts.subrange(
            1,
            ts.len() as int,
        ).push(t));
        assert(ts.push(t)[0] == ts[0]);
        assert(join_tokens(ts.push(t)) =~= join_tokens(ts) + seq![';'] + t);
    }
}

/// Renders one directive line, without its line break.
fn render_line_body_exec(d: &LaunchDirective) -> (v: Vec<char>)
    requires
        d@.tokens.len() >= 1,
    ensures
        v@ == render_line_body(d@),
{
    let mut v: Vec<char> = Vec::new();
    v.push('[');
    let t0 = chars_vec(d.tokens[0].as_str());
    crate::strutil::append_vec(&mut v, &t0);
    proof {
        assert(d@.tokens.subrange(0, 1) =~= seq![d@.tokens[0]]);
        assert(join_tokens(d@.tokens.subrange(0, 1)) == d@.tokens[0]);
        assert(v@ =~= seq!['['] + join_tokens(d@.tokens.subrange(0, 1)));
    }
    let mut i: usize = 1;
    while i < d.tokens.len()
        invariant
            1 <= i <= d@.tokens.len(),
            v@ == seq!['['] + join_tokens(d@.tokens.subrange(0, i as int)),
        decreases d@.tokens.len() - i,
    {
        v.push(';');
        let ti = chars_vec(d.tokens[i].as_str());
        crate::strutil::append_vec(&mut v, &ti);
        proof {
            assert(d@.tokens.subrange(0, i + 1 as int) =~= d@.tokens.subrange(0, i as int).push(
                d@.tokens[i as int],
            ));
            lemma_join_snoc(d@.tokens.subrange(0, i as int), d@.tokens[i as int]);
            assert(v@ =~= seq!['['] + join_tokens(d@.tokens.subrange(0, i + 1 as int)));
        }
        i = i + 1;
    }
    proof {
        assert(d@.tokens.subrange(0, d@.tokens.len() as int) =~= d@.tokens);
    }
    v.push(']');
    v.push(' ');
    let cv = chars_vec(d.command.as_str());
    crate::strutil::append_vec(&mut v, &cv);
    proof {
        assert(v@ =~= render_line_body(d@));
    }
    v
}

/// Renders the whole directive file, one line per directive, in order.
pub fn render_conf_exec(ds: &Vec<LaunchDirective>) -> (s: String)
    requires
        forall|i: int| 0 <= i < ds@.len() ==> (#[trigger] ds@[i]@).tokens.len() >= 1,
    ensures
        s@ == render_conf(ds@.map_values(|d: LaunchDirective| d@)),
{
    let ghost dv = ds@.map_values(|d: LaunchDirective| d@);
    let mut v: Vec<char> = Vec::new();
    let mut i: usize = 0;
    proof {
        assert(v@ =~= Seq::<char>::empty());
        assert(render_conf(dv.subrange(0, 0)) =~= Seq::<char>::empty());
    }
    while i < ds.len()
        invariant
            i <= ds@.len(),
            dv == ds@.map_values(|d: LaunchDirective| d@),
            forall|k: int| 0 <= k < ds@.len() ==> (#[trigger] ds@[k]@).tokens.len() >= 1,
            v@ == render_conf(dv.subrange(0, i as int)),
        decreases ds@.len() - i,
    {
        let body = render_line_body_exec(&ds[i]);
        crate::strutil::append_vec(&mut v, &body);
        v.push('\n');
        proof {
            lemma_render_conf_snoc(dv.subrange(0, i as int), dv[i as int]);
            assert(dv.subrange(0, i + 1 as int) =~= dv.subrange(0, i as int).push(dv[i as int]));
            assert(v@ =~= render_conf(dv.subrange(0, i + 1 as int)));
        }
        i = i + 1;
    }
    proof {
        assert(dv.subrange(0, dv.len() as int) =~= dv);
    }
    string_from_chars(&v)
}

/// Reads one directive line body back; malformed lines yield nothing.
pub fn parse_line_exec(line: &Vec<char>) -> (r: Option<LaunchDirective>)
    ensures
        match r {
            Some(d) => parse_line(line@) == Some(d@),
            None => parse_line(line@) is None,
        },
{
    let n = line.len();
    if n < 2 || line[0] != '[' {
        return None;
    }
    let cb = skip_to_char_vec(line, 1, ']');
    if cb >= n || cb + 1 >= n || line[cb + 1] != ' ' {
        return None;
    }
    let tp = sub_vec(line, 1, cb);
    let ghost tp0 = line@.subrange(1, cb as int);
    let mut toks: Vec<String> = Vec::new();
    let mut rest = tp;
    let mut ok = true;
    let ghost mut badk: int = 0;
    let ghost mut toksv: Seq<Seq<char>> = toks@.map_values(|t: String| t@);
    proof {
        assert(toksv =~= Seq::<Seq<char>>::empty());
    }
    loop
        invariant
            n == line@.len(),
            line@.len() >= 2,
            line@[0] == '[',
            cb as int == skip_to_char(line@, 1, ']'),
            1 <= cb,
            cb + 1 < line@.len(),
            line@[cb + 1] == ' ',
            tp0 == line@.subrange(1, cb as int),
            toksv == toks@.map_values(|t: String| t@),
            split_tokens(tp0) == toksv + split_tokens(rest@),
            ok ==> forall|k: int| 0 <= k < toksv.len() ==> (#[trigger] toksv[k]).len() > 0,
            !ok ==> 0 <= badk < toksv.len() && toksv[badk].len() == 0,
        decreases rest@.len() + 1,
    {
        let ghost toksv0 = toksv;
        let e = skip_to_char_vec(&rest, 0, ';');
        if e >= rest.len() {
            let last_empty = rest.len() == 0;
            toks.push(string_from_chars(&rest));
            proof {
                toksv = toks@.map_values(|t: String| t@);
                assert(toksv =~= toksv0.push(rest@));
                assert(split_tokens(rest@) == seq![rest@]);
                assert(toksv0 + split_tokens(rest@) =~= toksv0.push(rest@));
            }
            if last_empty {
                ok = false;
                proof {
                    badk = toks@.len() - 1;
                }
            }
            if ok {
                let command = string_from_chars(&sub_vec(line, cb + 2, n));
                let d = LaunchDirective { tokens: toks, command };
                proof {
                    assert(parse_line(line@) == Some(d@));
                }
                return Some(d);
            } else {
                proof {
                    assert(toksv[badk].len() == 0);
                    assert(split_tokens(tp0)[badk].len() == 0);
                    assert(parse_line(line@) is None);
                }
                return None;
            }
        } else {
            let t = sub_vec(&rest, 0, e);
            let t_empty = t.len() == 0;
            toks.push(string_from_chars(&t));
            proof {
                toksv = toks@.map_values(|t2: String| t2@);
                assert(toksv =~= toksv0.push(t@));
            }
            if t_empty {
                ok = false;
                proof {
                    badk = toks@.len() - 1;
                }
            }
            let new_rest = sub_vec(&rest, e + 1, rest.len());
            proof {
                assert(split_tokens(rest@) == seq![rest@.subrange(0, e as int)] + split_tokens(
                    rest@.subrange(e + 1, rest@.len() as int),
                ));
                assert(toksv0 + split_tokens(rest@) =~= toksv0.push(t@) + split_tokens(
                    new_rest@,
                ));
            }
            rest = new_rest;
        }
    }
}

/// Reads a whole directive file back: its lines in order, the malformed
/// ones skipped.
pub fn parse_conf_exec(content: &str) -> (r: Vec<LaunchDirective>)
    ensures
        r@.map_values(|d: LaunchDirective| d@) == parse_conf(content@),
{
    let cv = chars_vec(content);
    let mut out: Vec<LaunchDirective> = Vec::new();
    let mut rest = cv;
    proof {
        assert(out@.map_values(|d: LaunchDirective| d@) =~= Seq::<DirectiveV>::empty());
    }
    loop
        invariant
            parse_conf(content@) == out@.map_values(|d: LaunchDirective| d@) + parse_conf(rest@),
        decreases rest@.len(),
    {
        let ghost outv0 = out@.map_values(|d: LaunchDirective| d@);
        if rest.len() == 0 {
            proof {
                assert(parse_conf(rest@) =~= Seq::<DirectiveV>::empty());
                assert(outv0 + parse_conf(rest@) =~= outv0);
            }
            return out;
        }
        let e = skip_to_char_vec(&rest, 0, '\n');
        let line = sub_vec(&rest, 0, e);
        let parsed = parse_line_exec(&line);
        match parsed {
            Some(d) => {
                out.push(d);
                proof {
                    assert(out@.map_values(|d2: LaunchDirective| d2@) =~= outv0.push(
                        out@[out@.len() - 1]@,
                    ));
                }
            },
            None => {},
        }
        let new_rest: Vec<char> = if e >= rest.len() {
            Vec::new()
        } else {
            sub_vec(&rest, e + 1, rest.len())
        };
        proof {
            if e >= rest@.len() {
                assert(new_rest@ =~= Seq::<char>::empty());
                assert(parse_conf(new_rest@) =~= Seq::<DirectiveV>::empty());
                match parse_line(rest@.subrange(0, e as int)) {
                    Some(dd) => {
                        assert(parse_conf(rest@) =~= seq![dd] + parse_conf(new_rest@));
                    },
                    None => {
                        assert(parse_conf(rest@) =~= parse_conf(new_rest@));
                    },
                }
            }
            assert(parse_conf(content@) =~= out@.map_values(|d2: LaunchDirective| d2@)
                + parse_conf(new_rest@));
        }
        rest = new_rest;
    }
}

/// Rendering one more directive appends its line.
proof fn lemma_render_conf_snoc(ds: Seq<DirectiveV>, d: DirectiveV)
    ensures
        render_conf(ds.push(d)) == render_conf(ds) + render_line(d),
    decreases ds.len(),
{
    if ds.len() == 0 {
        assert(ds.push(d)[0] == d);
        assert(ds.push(d).subrange(1, 1) =~= Seq::<DirectiveV>::empty());
        assert(render_conf(Seq::<DirectiveV>::empty()) =~= Seq::<char>::empty());
        assert(render_conf(ds.push(d)) == render_line(d) + render_conf(
            Seq::<DirectiveV>::empty(),
        ));
        assert(render_conf(ds) =~= Seq::<char>::empty());
        assert(render_conf(ds.push(d)) =~= render_conf(ds) + render_line(d));
    } else {
        let rest = ds.subrange(1, ds.len() as int);
        lemma_render_conf_snoc(rest, d);
        assert(ds.push(d).subrange(1, ds.push(d).len() as int) =~= rest.push(d));
        assert(ds.push(d)[0] == ds[0]);
        assert(render_conf(ds.push(d)) == render_line(ds[0]) + render_conf(rest.push(d)));
        assert(render_conf(rest.push(d)) == render_conf(rest) + render_line(d));
        assert(render_conf(ds) == render_line(ds[0]) + render_conf(rest));
        assert(render_conf(ds.push(d)) =~= render_conf(ds) + render_line(d));
    }
}

/// A join of well-formed tokens contains no closing bracket and no line
/// break; its separators are the only semicolons between the tokens.
proof fn lemma_join_tokens_ok(ts: Seq<Seq<char>>)
    requires
        forall|i: int| 0 <= i < ts.len() ==> token_wf(#[trigger] ts[i]),
    ensures
        forall|j: int|
            0 <= j < join_tokens(ts).len() ==> (#[trigger] join_tokens(ts)[j]) != ']'
                && join_tokens(ts)[j] != '\n',
    decreases ts.len(),
{
    if ts.len() == 0 {
    } else if ts.len() == 1 {
        assert(token_wf(ts[0]));
    } else {
        let rest = ts.subrange(1, ts.len() as int);
        assert(forall|i: int| 0 <= i < rest.len() ==> token_wf(#[trigger] rest[i]));
        lemma_join_tokens_ok(rest);
        assert(token_wf(ts[0]));
        let jn = join_tokens(ts);
        let t0len = ts[0].len() as int;
        assert forall|j: int| 0 <= j < jn.len() implies (#[trigger] jn[j]) != ']' && jn[j]
            != '\n' by {
            if j < t0len {
                assert(jn[j] == ts[0][j]);
            } else if j == t0len {
                assert(jn[j] == ';');
            } else {
                assert(jn[j] == join_tokens(rest)[j - t0len - 1]);
            }
        }
    }
}

/// Splitting a join of well-formed tokens yields the tokens back.
proof fn lemma_split_join(ts: Seq<Seq<char>>)
    requires
        ts.len() >= 1,
        forall|i: int| 0 <= i < ts.len() ==> token_wf(#[trigger] ts[i]),
    ensures
        split_tokens(join_tokens(ts)) == ts,
    decreases ts.len(),
{
    let jn = join_tokens(ts);
    if ts.len() == 1 {
        assert(jn == ts[0]);
        assert(token_wf(ts[0]));
        lemma_skip_to_char_match(jn, 0, jn.len() as int, ';');
        assert(split_tokens(jn) =~= ts);
    } else {
        let rest = ts.subrange(1, ts.len() as int);
        assert(forall|i: int| 0 <= i < rest.len() ==> token_wf(#[trigger] rest[i]));
        lemma_split_join(rest);
        assert(token_wf(ts[0]));
        let t0len = ts[0].len() as int;
        assert(jn == ts[0] + seq![';'] + join_tokens(rest));
        assert forall|j: int| 0 <= j < t0len implies (#[trigger] jn[j]) != ';' by {
            assert(jn[j] == ts[0][j]);
        }
        assert(jn[t0len] == ';');
        lemma_skip_to_char_match(jn, 0, t0len, ';');
        assert(t0len < jn.len());
        assert(jn.subrange(0, t0len) =~= ts[0]);
        assert(jn.subrange(t0len + 1, jn.len() as int) =~= join_tokens(rest));
        assert(split_tokens(jn) == seq![ts[0]] + split_tokens(join_tokens(rest)));
        assert(split_tokens(jn) =~= ts);
    }
}

/// Parsing a rendered directive line yields the directive back.
proof fn lemma_parse_render_line(d: DirectiveV)
    requires
        directive_wf(d),
    ensures
        parse_line(render_line_body(d)) == Some(d),
{
    let body = render_line_body(d);
    let jn = join_tokens(d.tokens);
    let jlen = jn.len() as int;
    lemma_join_tokens_ok(d.tokens);
    assert(body[0] == '[');
    assert(body.len() >= 2);
    assert forall|j: int| 1 <= j < 1 + jlen implies (#[trigger] body[j]) != ']' by {
        assert(body[j] == jn[j - 1]);
    }
    assert(body[1 + jlen] == ']');
    lemma_skip_to_char_match(body, 1, 1 + jlen, ']');
    let cb = 1 + jlen;
    assert(cb + 1 < body.len());
    assert(body[cb + 1] == ' ');
    assert(body.subrange(1, cb) =~= jn);
    lemma_split_join(d.tokens);
    assert(split_tokens(body.subrange(1, cb)) == d.tokens);
    assert(forall|k: int|
        0 <= k < d.tokens.len() ==> (#[trigger] d.tokens[k]).len() > 0);
    assert(body.subrange(cb + 2, body.len() as int) =~= d.command);
    assert(parse_line(body) == Some(DirectiveV { tokens: d.tokens, command: d.command }));
    assert(DirectiveV { tokens: d.tokens, command: d.command } == d);
}

/// Round trip of the directive file: parsing a rendered list of well-formed
/// directives yields the directives back, in order and in full.
pub proof fn lemma_conf_round_trip(ds: Seq<DirectiveV>)
    requires
        forall|i: int| 0 <= i < ds.len() ==> directive_wf(#[trigger] ds[i]),
    ensures
        parse_conf(render_conf(ds)) == ds,
    decreases ds.len(),
{
    if ds.len() == 0 {
        assert(parse_conf(render_conf(ds)) =~= ds);
    } else {
        let rest = ds.subrange(1, ds.len() as int);
        assert(forall|i: int| 0 <= i < rest.len() ==> directive_wf(#[trigger] rest[i]));
        lemma_conf_round_trip(rest);
        let d0 = ds[0];
        assert(directive_wf(d0));
        let body = render_line_body(d0);
        let s = render_conf(ds);
        assert(s == render_line(d0) + render_conf(rest));
        assert(render_line(d0) == body + seq!['\n']);
        let blen = body.len() as int;
        lemma_join_tokens_ok(d0.tokens);
        let jlen = join_tokens(d0.tokens).len() as int;
        assert forall|j: int| 0 <= j < blen implies (#[trigger] s[j]) != '\n' by {
            assert(s[j] == body[j]);
            if j == 0 {
                assert(body[j] == '[');
            } else if j < 1 + jlen {
                assert(body[j] == join_tokens(d0.tokens)[j - 1]);
            } else if j == 1 + jlen {
                assert(body[j] == ']');
            } else if j == 2 + jlen {
                assert(body[j] == ' ');
            } else {
                assert(body[j] == d0.command[j - 3 - jlen]);
            }
        }
        assert(s[blen] == '\n');
        lemma_skip_to_char_match(s, 0, blen, '\n');
        assert(s.subrange(0, blen) =~= body);
        lemma_parse_render_line(d0);
        assert(parse_line(s.subrange(0, blen)) == Some(d0));
        assert(blen < s.len());
        assert(s.subrange(blen + 1, s.len() as int) =~= render_conf(rest));
        assert(parse_conf(s) == seq![d0] + parse_conf(render_conf(rest)));
        assert(parse_conf(s) =~= ds);
    }
}

} // verus!
