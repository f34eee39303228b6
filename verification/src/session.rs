//! Session capture: turning the enumerated live windows and their resolved
//! commands into a manifest — every window one record, directives collapsed
//! per process id unless duplicates are kept — and the storage-path
//! bookkeeping of a named session.
use crate::adjust::windows_view;
use crate::conf::{directive_for, directive_of};
use crate::model::{
    DirectiveV, LaunchDirective, SessionManifest, WindowRecord, WindowRecordV, directive_wf,
    directives_view, manifest_wf, record_wf, records_view,
};
use crate::strutil::{append_vec, chars_vec, string_from_chars};
use vstd::prelude::*;
use vstd::string::*;

verus! {

/// The views of a list of commands.
pub open spec fn commands_view(v: Seq<String>) -> Seq<Seq<char>> {
    v.map_values(|c: String| c@)
}

/// The directives captured from a list of (record, command) pairs taken
/// front to back: one directive per pair, except that with duplicates off a
/// pair whose process id was already seen contributes none.
pub open spec fn capture_directives(
    rs: Seq<WindowRecordV>,
    cmds: Seq<Seq<char>>,
    keep_duplicates: bool,
    seen: Set<int>,
) -> Seq<DirectiveV>
    decreases rs.len(),
{
    if rs.len() == 0 {
        Seq::empty()
    } else {
        let rest_r = rs.subrange(1, rs.len() as int);
        let rest_c = cmds.subrange(1, cmds.len() as int);
        if !keep_duplicates && seen.contains(rs[0].pid) {
            capture_directives(rest_r, rest_c, keep_duplicates, seen)
        } else {
            seq![directive_of(rs[0], cmds[0])] + capture_directives(
                rest_r,
                rest_c,
                keep_duplicates,
                seen.insert(rs[0].pid),
            )
        }
    }
}

/// True when `p` occurs in `pids`.
fn pid_seen(pids: &Vec<i32>, p: i32) -> (r: bool)
    ensures
        r == pids@.contains(p),
{
    let mut i: usize = 0;
    while i < pids.len()
        invariant
            i <= pids@.len(),
            forall|j: int| 0 <= j < i ==> pids@[j] != p,
        decreases pids@.len() - i,
    {
        if pids[i] == p {
            return true;
        }
        i = i + 1;
    }
    assert(!pids@.contains(p));
    false
}

/// Captures a session manifest from the enumerated windows and their
/// resolved commands. Windows are visited in reverse enumeration order, so
/// the first-created window of a process wins its directive. Every window
/// contributes one record; directives are one per process id, or one per
/// window when duplicates are kept.
pub fn capture_session(
    windows: Vec<WindowRecord>,
    commands: Vec<String>,
    save_duplicate_pids: bool,
) -> (m: SessionManifest)
    requires
        windows@.len() == commands@.len(),
        forall|i: int, j: int|
            0 <= i < commands@.len() && 0 <= j < commands@[i]@.len() ==> commands@[i]@[j] != '\n',
        forall|i: int| 0 <= i < windows@.len() ==> record_wf(#[trigger] windows@[i]@),
    ensures
        records_view(m) == windows_view(windows@).reverse(),
        directives_view(m) == capture_directives(
            windows_view(windows@).reverse(),
            commands_view(commands@).reverse(),
            save_duplicate_pids,
            Set::empty(),
        ),
        manifest_wf(m),
{
    let ghost wv0 = windows_view(windows@);
    let ghost cv0 = commands_view(commands@);
    let ghost full = capture_directives(
        wv0.reverse(),
        cv0.reverse(),
        save_duplicate_pids,
        Set::<int>::empty(),
    );
    let mut windows = windows;
    let mut commands = commands;
    let mut records: Vec<WindowRecord> = Vec::new();
    let mut directives: Vec<LaunchDirective> = Vec::new();
    let mut pids: Vec<i32> = Vec::new();
    let ghost mut seen: Set<int> = Set::empty();
    proof {
        assert(wv0.subrange(0, wv0.len() as int) =~= wv0);
        assert(cv0.subrange(0, cv0.len() as int) =~= cv0);
        assert(windows_view(records@) =~= wv0.subrange(wv0.len() as int, wv0.len() as int).reverse());
        assert(directives_view_vec(directives@) =~= Seq::<DirectiveV>::empty());
    }
    while windows.len() > 0
        invariant
            windows@.len() == commands@.len(),
            windows@.len() <= wv0.len(),
            wv0.len() == cv0.len(),
            windows_view(windows@) == wv0.subrange(0, windows@.len() as int),
            commands_view(commands@) == cv0.subrange(0, commands@.len() as int),
            forall|i: int, j: int|
                0 <= i < commands@.len() && 0 <= j < commands@[i]@.len() ==> commands@[i]@[j]
                    != '\n',
            forall|i: int| 0 <= i < windows@.len() ==> record_wf(#[trigger] windows@[i]@),
            windows_view(records@) == wv0.subrange(windows@.len() as int, wv0.len() as int).reverse(),
            forall|i: int| 0 <= i < records@.len() ==> record_wf(#[trigger] records@[i]@),
            forall|i: int| 0 <= i < directives@.len() ==> directive_wf(#[trigger] directives@[i]@),
            forall|p: i32| pids@.contains(p) == seen.contains(p as int),
            full == directives_view_vec(directives@) + capture_directives(
                wv0.subrange(0, windows@.len() as int).reverse(),
                cv0.subrange(0, commands@.len() as int).reverse(),
                save_duplicate_pids,
                seen,
            ),
        decreases windows@.len(),
    {
        let ghost cur = windows@.len() as int;
        let ghost rem_r = wv0.subrange(0, cur).reverse();
        let ghost rem_c = cv0.subrange(0, cur).reverse();
        let ghost oldw = windows@;
        let ghost oldc = commands@;
        let w = windows.pop().unwrap();
        let c = commands.pop().unwrap();
        proof {
            assert(windows_view(windows@) =~= wv0.subrange(0, cur - 1));
            assert(commands_view(commands@) =~= cv0.subrange(0, cur - 1));
            assert(w@ == windows_view(oldw)[cur - 1]);
            assert(c@ == commands_view(oldc)[cur - 1]);
            assert(w@ == wv0[cur - 1]);
            assert(c@ == cv0[cur - 1]);
            assert(rem_r[0] == wv0[cur - 1]);
            assert(rem_c[0] == cv0[cur - 1]);
            assert(rem_r.subrange(1, rem_r.len() as int) =~= wv0.subrange(0, cur - 1).reverse());
            assert(rem_c.subrange(1, rem_c.len() as int) =~= cv0.subrange(0, cur - 1).reverse());
        }
        let ghost dv0 = directives_view_vec(directives@);
        let ghost oldpids = pids@;
        let ghost oldseen = seen;
        let is_dup = pid_seen(&pids, w.pid);
        if save_duplicate_pids || !is_dup {
            let d = directive_for(&w, c);
            directives.push(d);
            pids.push(w.pid);
            proof {
                seen = seen.insert(w@.pid);
                assert forall|p: i32| pids@.contains(p) == seen.contains(p as int) by {
                    assert(pids@ == oldpids.push(w.pid));
                    if p == w.pid {
                        assert(pids@[pids@.len() - 1] == p);
                        assert(pids@.contains(p));
                        assert(seen.contains(p as int));
                    } else {
                        if oldpids.contains(p) {
                            let k = choose|k: int|
                                0 <= k < oldpids.len() && oldpids[k] == p;
                            assert(pids@[k] == p);
                            assert(pids@.contains(p));
                        }
                        if pids@.contains(p) {
                            let k = choose|k: int| 0 <= k < pids@.len() && pids@[k] == p;
                            assert(k < oldpids.len());
                            assert(oldpids[k] == p);
                            assert(oldpids.contains(p));
                        }
                        assert(p as int != w@.pid);
                        assert(seen.contains(p as int) == oldseen.contains(p as int));
                    }
                }
                assert(directives_view_vec(directives@) =~= dv0.push(
                    directive_of(wv0[cur - 1], cv0[cur - 1]),
                ));
                assert(seq![directive_of(wv0[cur - 1], cv0[cur - 1])] + capture_directives(
                    rem_r.subrange(1, rem_r.len() as int),
                    rem_c.subrange(1, rem_c.len() as int),
                    save_duplicate_pids,
                    seen,
                ) =~= directives_view_vec(directives@).subrange(
                    dv0.len() as int,
                    directives_view_vec(directives@).len() as int,
                ) + capture_directives(
                    rem_r.subrange(1, rem_r.len() as int),
                    rem_c.subrange(1, rem_c.len() as int),
                    save_duplicate_pids,
                    seen,
                ));
                assert(full =~= directives_view_vec(directives@) + capture_directives(
                    wv0.subrange(0, cur - 1).reverse(),
                    cv0.subrange(0, cur - 1).reverse(),
                    save_duplicate_pids,
                    seen,
                ));
            }
        } else {
            proof {
                assert(seen.contains(rem_r[0].pid));
                assert(full =~= directives_view_vec(directives@) + capture_directives(
                    wv0.subrange(0, cur - 1).reverse(),
                    cv0.subrange(0, cur - 1).reverse(),
                    save_duplicate_pids,
                    seen,
                ));
            }
        }
        let ghost rv0 = windows_view(records@);
        records.push(w);
        proof {
            assert(windows_view(records@) =~= rv0.push(wv0[cur - 1]));
            assert(wv0.subrange(cur - 1, wv0.len() as int).reverse() =~= wv0.subrange(
                cur,
                wv0.len() as int,
            ).reverse().push(wv0[cur - 1]));
        }
    }
    proof {
        assert(wv0.subrange(0, 0).reverse() =~= Seq::<WindowRecordV>::empty());
        assert(cv0.subrange(0, 0).reverse() =~= Seq::<Seq<char>>::empty());
        assert(capture_directives(
            Seq::<WindowRecordV>::empty(),
            Seq::<Seq<char>>::empty(),
            save_duplicate_pids,
            seen,
        ) =~= Seq::<DirectiveV>::empty());
        assert(wv0.subrange(0, wv0.len() as int).reverse() =~= wv0.reverse());
    }
    let m = SessionManifest { directives, records };
    proof {
        assert(records_view(m) == windows_view(m.records@));
        assert(directives_view(m) == directives_view_vec(m.directives@));
        assert(records_view(m) =~= wv0.reverse());
        assert(full =~= directives_view_vec(m.directives@));
    }
    m
}

/// The views of a list of directives.
pub open spec fn directives_view_vec(v: Seq<LaunchDirective>) -> Seq<DirectiveV> {
    v.map_values(|d: LaunchDirective| d@)
}

/// With duplicates off, every pair whose process id is already seen
/// contributes nothing.
proof fn lemma_capture_all_seen(rs: Seq<WindowRecordV>, cmds: Seq<Seq<char>>, seen: Set<int>)
    requires
        forall|i: int| 0 <= i < rs.len() ==> seen.contains(#[trigger] rs[i].pid),
    ensures
        capture_directives(rs, cmds, false, seen).len() == 0,
    decreases rs.len(),
{
    if rs.len() > 0 {
        assert(seen.contains(rs[0].pid));
        let rest_r = rs.subrange(1, rs.len() as int);
        assert(forall|i: int| 0 <= i < rest_r.len() ==> seen.contains(#[trigger] rest_r[i].pid));
        lemma_capture_all_seen(rest_r, cmds.subrange(1, cmds.len() as int), seen);
    }
}

/// With duplicates on, every pair contributes exactly one directive.
proof fn lemma_capture_keep_all(rs: Seq<WindowRecordV>, cmds: Seq<Seq<char>>, seen: Set<int>)
    ensures
        capture_directives(rs, cmds, true, seen).len() == rs.len(),
    decreases rs.len(),
{
    if rs.len() > 0 {
        lemma_capture_keep_all(
            rs.subrange(1, rs.len() as int),
            cmds.subrange(1, cmds.len() as int),
            seen.insert(rs[0].pid),
        );
    }
}

/// Duplicate-pid collapsing: when some windows share one process id, with
/// duplicates off exactly one directive is captured for that id — the first
/// pair wins — and with duplicates on every pair yields its own directive.
/// Records are unaffected either way: capture keeps them all.
pub proof fn lemma_duplicate_pid_collapsing(rs: Seq<WindowRecordV>, cmds: Seq<Seq<char>>)
    requires
        rs.len() >= 1,
        forall|i: int| 0 <= i < rs.len() ==> (#[trigger] rs[i]).pid == rs[0].pid,
    ensures
        capture_directives(rs, cmds, false, Set::empty()).len() == 1,
        capture_directives(rs, cmds, true, Set::empty()).len() == rs.len(),
{
    let rest_r = rs.subrange(1, rs.len() as int);
    let rest_c = cmds.subrange(1, cmds.len() as int);
    assert(!Set::<int>::empty().contains(rs[0].pid));
    assert(forall|i: int|
        0 <= i < rest_r.len() ==> Set::<int>::empty().insert(rs[0].pid).contains(
            #[trigger] rest_r[i].pid,
        ));
    lemma_capture_all_seen(rest_r, rest_c, Set::empty().insert(rs[0].pid));
    lemma_capture_keep_all(rs, cmds, Set::empty());
}

/// Round trip of a saved session: a manifest rendered as its two on-disk
/// artifacts — the directive file and the record file — reads back with a
/// directive list and a record list identical in content and count to the
/// in-memory values. Serialization is lossless for all modeled fields.
pub proof fn lemma_manifest_round_trip(m: SessionManifest)
    requires
        manifest_wf(m),
    ensures
        crate::conf::parse_conf(crate::conf::render_conf(directives_view(m)))
            == directives_view(m),
        crate::json::spec_parse_records(crate::json::emit_records(records_view(m)), 0) == Some(
            (records_view(m), crate::json::emit_records(records_view(m)).len() as int),
        ),
{
    crate::conf::lemma_conf_round_trip(directives_view(m));
    assert forall|i: int| 0 <= i < records_view(m).len() implies record_wf(
        #[trigger] records_view(m)[i],
    ) && crate::json::record_ranged(records_view(m)[i]) by {
        assert(records_view(m)[i] == m.records@[i]@);
    }
    crate::json::lemma_records_round_trip(records_view(m));
}

/// The directory of a named session under the base path: the base itself
/// for the unnamed session, else the name appended with a single separator.
pub fn session_dir(base: &str, name: &str) -> (r: String)
    ensures
        name@.len() == 0 ==> r@ == base@,
        name@.len() > 0 ==> r@ == base@ + seq!['/'] + name@,
{
    if name.unicode_len() == 0 {
        return String::from_str(base);
    }
    let mut v = chars_vec(base);
    v.push('/');
    let nv = chars_vec(name);
    append_vec(&mut v, &nv);
    string_from_chars(&v)
}

/// The path of a file inside a session directory; a trailing separator on
/// the directory is not doubled.
pub fn session_file_path(dir: &str, file: &str) -> (r: String)
    ensures
        ({
            let d = dir@;
            let trimmed = if d.len() > 0 && d[d.len() - 1] == '/' {
                d.subrange(0, d.len() - 1)
            } else {
                d
            };
            r@ == trimmed + seq!['/'] + file@
        }),
{
    let v = chars_vec(dir);
    let mut t = if v.len() > 0 && v[v.len() - 1] == '/' {
        crate::strutil::sub_vec(&v, 0, v.len() - 1)
    } else {
        crate::strutil::sub_vec(&v, 0, v.len())
    };
    proof {
        assert(v@.subrange(0, v@.len() as int) =~= v@);
    }
    t.push('/');
    let fv = chars_vec(file);
    append_vec(&mut t, &fv);
    string_from_chars(&t)
}

} // verus!
