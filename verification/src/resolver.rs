//! The command resolver: turns raw process metadata into a canonical,
//! re-launchable command string. It normalizes the packaging schemes it
//! knows — store-path wrapper scripts, declarative-package runners,
//! self-contained bundles and managed package trees — and otherwise falls
//! back from the command line to the executable name, the window class, the
//! window title, and finally a literal placeholder.
use crate::strutil::{
    after_last, append_vec, chars_vec, contains_sub, ends_with, find_sub, find_sub_exec,
    first_token, is_space, is_space_char, last_index_of, last_index_of_vec, lemma_find_sub,
    lemma_find_sub_unique, lemma_last_index_of, lemma_last_index_unique, lemma_skip_non_spaces,
    lemma_skip_non_spaces_match, lemma_skip_spaces, lemma_skip_to_char, lower_of, lowercase,
    match_at, match_at_exec, rest_after_token, skip_non_spaces, skip_non_spaces_vec, skip_spaces,
    skip_spaces_vec, skip_to_char, skip_to_char_vec, string_from_chars, sub_vec,
};
use vstd::prelude::*;
use vstd::string::*;

verus! {

pub open spec fn wrapped_suffix() -> Seq<char> {
    seq!['-', 'w', 'r', 'a', 'p', 'p', 'e', 'd']
}

pub open spec fn flatpak_word() -> Seq<char> {
    seq!['f', 'l', 'a', 't', 'p', 'a', 'k']
}

pub open spec fn app_id_flag() -> Seq<char> {
    seq!['-', '-', 'a', 'p', 'p', '-', 'i', 'd', '=']
}

pub open spec fn run_word() -> Seq<char> {
    seq!['r', 'u', 'n']
}

pub open spec fn snap_prefix() -> Seq<char> {
    seq!['/', 's', 'n', 'a', 'p', '/']
}

pub open spec fn appimage_suffix() -> Seq<char> {
    seq!['.', 'A', 'p', 'p', 'I', 'm', 'a', 'g', 'e']
}

pub open spec fn unknown_word() -> Seq<char> {
    seq!['u', 'n', 'k', 'n', 'o', 'w', 'n']
}

fn wrapped_suffix_vec() -> (v: Vec<char>)
    ensures
        v@ == wrapped_suffix(),
{
    let v = chars_vec("-wrapped");
    proof {
        reveal_strlit("-wrapped");
        assert(v@ =~= wrapped_suffix());
    }
    v
}

fn flatpak_word_vec() -> (v: Vec<char>)
    ensures
        v@ == flatpak_word(),
{
    let v = chars_vec("flatpak");
    proof {
        reveal_strlit("flatpak");
        assert(v@ =~= flatpak_word());
    }
    v
}

fn app_id_flag_vec() -> (v: Vec<char>)
    ensures
        v@ == app_id_flag(),
{
    let v = chars_vec("--app-id=");
    proof {
        reveal_strlit("--app-id=");
        assert(v@ =~= app_id_flag());
    }
    v
}

fn run_word_vec() -> (v: Vec<char>)
    ensures
        v@ == run_word(),
{
    let v = chars_vec("run");
    proof {
        reveal_strlit("run");
        assert(v@ =~= run_word());
    }
    v
}

fn snap_prefix_vec() -> (v: Vec<char>)
    ensures
        v@ == snap_prefix(),
{
    let v = chars_vec("/snap/");
    proof {
        reveal_strlit("/snap/");
        assert(v@ =~= snap_prefix());
    }
    v
}

fn appimage_suffix_vec() -> (v: Vec<char>)
    ensures
        v@ == appimage_suffix(),
{
    let v = chars_vec(".AppImage");
    proof {
        reveal_strlit(".AppImage");
        assert(v@ =~= appimage_suffix());
    }
    v
}

fn unknown_string() -> (s: String)
    ensures
        s@ == unknown_word(),
{
    let s = String::from_str("unknown");
    proof {
        reveal_strlit("unknown");
        assert(s@ =~= unknown_word());
    }
    s
}

/// The rewrite of a store-wrapper invocation. When the first token of the
/// command line is a path segment `<prefix>-<name>-wrapped` or
/// `.<name>-wrapped`, the command becomes `<name>` followed by the untouched
/// remainder of the line; otherwise nothing.
pub open spec fn nix_unwrap(s: Seq<char>) -> Option<Seq<char>> {
    let t = first_token(s);
    if t.len() > wrapped_suffix().len() && ends_with(t, wrapped_suffix()) {
        let stem = t.subrange(0, t.len() - wrapped_suffix().len());
        let seg = after_last(stem, '/');
        if seg.len() == 0 {
            None
        } else {
            let name = if seg[0] == '.' {
                seg.subrange(1, seg.len() as int)
            } else {
                after_last(seg, '-')
            };
            if name.len() == 0 {
                None
            } else {
                Some(name + rest_after_token(s))
            }
        }
    } else {
        None
    }
}

/// Rewrites a store-wrapper invocation to the wrapped application's name
/// plus the original trailing arguments.
pub fn handle_nix_wrapped(command: &str) -> (r: Option<String>)
    ensures
        match r {
            Some(out) => nix_unwrap(command@) == Some(out@),
            None => nix_unwrap(command@) is None,
        },
{
    let v = chars_vec(command);
    let st = skip_spaces_vec(&v, 0);
    let e = skip_non_spaces_vec(&v, st);
    let t = sub_vec(&v, st, e);
    assert(t@ == first_token(command@));
    let suf = wrapped_suffix_vec();
    if t.len() <= suf.len() {
        return None;
    }
    if !match_at_exec(&t, t.len() - suf.len(), &suf) {
        return None;
    }
    let stem = sub_vec(&t, 0, t.len() - suf.len());
    let li = last_index_of_vec(&stem, '/');
    let seg: Vec<char>;
    match li {
        Some(k) => {
            seg = sub_vec(&stem, k + 1, stem.len());
            assert(seg@ == after_last(stem@, '/'));
        },
        None => {
            seg = sub_vec(&stem, 0, stem.len());
            assert(seg@ =~= after_last(stem@, '/'));
        },
    }
    if seg.len() == 0 {
        return None;
    }
    let name: Vec<char>;
    if seg[0] == '.' {
        name = sub_vec(&seg, 1, seg.len());
    } else {
        let li2 = last_index_of_vec(&seg, '-');
        match li2 {
            Some(k) => {
                name = sub_vec(&seg, k + 1, seg.len());
                assert(name@ == after_last(seg@, '-'));
            },
            None => {
                name = sub_vec(&seg, 0, seg.len());
                assert(name@ =~= after_last(seg@, '-'));
            },
        }
    }
    if name.len() == 0 {
        return None;
    }
    let mut out = name;
    let rest = sub_vec(&v, e, v.len());
    append_vec(&mut out, &rest);
    Some(string_from_chars(&out))
}

/// Extracts the binary's base name: the part of the command's first token
/// after its last path separator.
pub fn extract_binary_name<'a>(command: &'a str) -> (r: &'a str)
    ensures
        r@ == after_last(first_token(command@), '/'),
{
    let v = chars_vec(command);
    let st = skip_spaces_vec(&v, 0);
    let e = skip_non_spaces_vec(&v, st);
    let t = sub_vec(&v, st, e);
    assert(t@ == first_token(command@));
    let li = last_index_of_vec(&t, '/');
    match li {
        Some(m) => {
            assert(m < t@.len());
            let r = command.substring_char(st + m + 1, e);
            assert(r@ =~= after_last(t@, '/'));
            r
        },
        None => {
            let r = command.substring_char(st, e);
            assert(r@ =~= after_last(t@, '/'));
            r
        },
    }
}

/// A character allowed in a reverse-DNS-style application id.
pub open spec fn id_char(c: char) -> bool {
    ('a' <= c && c <= 'z') || ('A' <= c && c <= 'Z') || ('0' <= c && c <= '9') || c == '.' || c
        == '_' || c == '-'
}

/// A reverse-DNS-style application id: identifier characters throughout,
/// with a dot somewhere strictly inside.
pub open spec fn is_app_id(t: Seq<char>) -> bool {
    t.len() >= 3 && (forall|j: int| 0 <= j < t.len() ==> id_char(#[trigger] t[j])) && (exists|
        j: int,
    |
        1 <= j < t.len() - 1 && t[j] == '.')
}

/// The value of the first explicit `--app-id=` flag, when non-empty.
pub open spec fn flatpak_app_id(s: Seq<char>) -> Option<Seq<char>> {
    let p = find_sub(s, 0, app_id_flag());
    if p >= 0 {
        let vs = p + app_id_flag().len();
        let ve = skip_non_spaces(s, vs);
        if ve > vs {
            Some(s.subrange(vs, ve))
        } else {
            None
        }
    } else {
        None
    }
}

/// The first token at or after `i` that does not begin with `--`.
pub open spec fn first_plain_token(s: Seq<char>, i: int) -> Option<Seq<char>>
    decreases s.len() - i
        when 0 <= i <= s.len()
        via first_plain_token_dec
{
    let st = skip_spaces(s, i);
    if st >= s.len() {
        None
    } else {
        let e = skip_non_spaces(s, st);
        let t = s.subrange(st, e);
        if t.len() >= 2 && t[0] == '-' && t[1] == '-' {
            first_plain_token(s, e)
        } else {
            Some(t)
        }
    }
}

#[via_fn]
proof fn first_plain_token_dec(s: Seq<char>, i: int) {
    lemma_skip_spaces(s, i);
    if 0 <= skip_spaces(s, i) < s.len() {
        lemma_skip_non_spaces(s, skip_spaces(s, i));
    }
}

/// The app id of a declarative-runner invocation without an explicit flag:
/// the first non-option token after `flatpak run`, if it is an app id.
pub open spec fn flatpak_run_id(s: Seq<char>) -> Option<Seq<char>> {
    let q = find_sub(s, 0, flatpak_word());
    if q < 0 {
        None
    } else {
        let a = q + flatpak_word().len();
        let r = skip_spaces(s, a);
        if r > a && match_at(s, r, run_word()) && (r + run_word().len() == s.len()
            || is_space_char(s[r + run_word().len()])) {
            match first_plain_token(s, r + run_word().len()) {
                Some(t) => if is_app_id(t) {
                    Some(t)
                } else {
                    None
                },
                None => None,
            }
        } else {
            None
        }
    }
}

/// The declarative-runner rewrite: an explicit app-id flag wins, then the
/// first positional app id of a `run` invocation.
pub open spec fn flatpak_extract(s: Seq<char>) -> Option<Seq<char>> {
    if contains_sub(s, flatpak_word()) {
        if flatpak_app_id(s) is Some {
            flatpak_app_id(s)
        } else {
            flatpak_run_id(s)
        }
    } else {
        None
    }
}

fn id_char_exec(c: char) -> (r: bool)
    ensures
        r == id_char(c),
{
    ('a' <= c && c <= 'z') || ('A' <= c && c <= 'Z') || ('0' <= c && c <= '9') || c == '.' || c
        == '_' || c == '-'
}

fn is_app_id_exec(t: &Vec<char>) -> (r: bool)
    ensures
        r == is_app_id(t@),
{
    let n = t.len();
    if n < 3 {
        return false;
    }
    let mut j: usize = 0;
    let mut dot = false;
    let mut dotpos: usize = 0;
    while j < n
        invariant
            n == t@.len(),
            3 <= n,
            j <= n,
            forall|k: int| 0 <= k < j ==> id_char(#[trigger] t@[k]),
            dot ==> 1 <= dotpos < n - 1 && t@[dotpos as int] == '.',
            !dot ==> forall|k: int| 1 <= k < n - 1 && k < j ==> t@[k] != '.',
        decreases n - j,
    {
        let c = t[j];
        if !id_char_exec(c) {
            return false;
        }
        if j >= 1 && j + 1 < n && c == '.' {
            dot = true;
            dotpos = j;
        }
        j = j + 1;
    }
    dot
}

/// Extracts an application id from a declarative-package runner invocation,
/// preferring an explicit app-id flag over a positional id.
pub fn handle_flatpak(command: &str) -> (r: Option<String>)
    ensures
        match r {
            Some(out) => flatpak_extract(command@) == Some(out@),
            None => flatpak_extract(command@) is None,
        },
{
    let v = chars_vec(command);
    let fw = flatpak_word_vec();
    let q: usize = match find_sub_exec(&v, 0, &fw) {
        Some(q) => q,
        None => {
            return None;
        },
    };
    proof {
        lemma_find_sub(v@, 0, fw@);
    }
    let af = app_id_flag_vec();
    match find_sub_exec(&v, 0, &af) {
        Some(p) => {
            proof {
                lemma_find_sub(v@, 0, af@);
            }
            let nv1 = v.len();
            assert(p + af@.len() <= nv1 as int);
            let vs = p + af.len();
            let ve = skip_non_spaces_vec(&v, vs);
            if ve > vs {
                return Some(string_from_chars(&sub_vec(&v, vs, ve)));
            }
            assert(flatpak_app_id(v@) is None);
        },
        None => {
            assert(flatpak_app_id(v@) is None);
        },
    }
    let nv0 = v.len();
    assert(q + fw@.len() <= nv0 as int);
    let a = q + fw.len();
    let r1 = skip_spaces_vec(&v, a);
    let rw = run_word_vec();
    if r1 > a && match_at_exec(&v, r1, &rw) {
        let nv = v.len();
        assert(r1 + rw@.len() <= nv as int);
        let after_run = r1 + rw.len();
        assert(after_run <= v@.len());
        if after_run == v.len() || is_space(v[after_run]) {
            proof {
                assert(flatpak_extract(v@) == (match first_plain_token(v@, after_run as int) {
                    Some(t) => if is_app_id(t) {
                        Some(t)
                    } else {
                        None
                    },
                    None => None::<Seq<char>>,
                }));
            }
            let mut i = after_run;
            loop
                invariant
                    i <= v@.len(),
                    v@ == command@,
                    after_run <= v@.len(),
                    flatpak_extract(command@) == (match first_plain_token(
                        v@,
                        after_run as int,
                    ) {
                        Some(t) => if is_app_id(t) {
                            Some(t)
                        } else {
                            None
                        },
                        None => None::<Seq<char>>,
                    }),
                    first_plain_token(v@, after_run as int) == first_plain_token(v@, i as int),
                decreases v@.len() - i,
            {
                let st2 = skip_spaces_vec(&v, i);
                if st2 >= v.len() {
                    return None;
                }
                let e2 = skip_non_spaces_vec(&v, st2);
                let t2 = sub_vec(&v, st2, e2);
                let is_opt = t2.len() >= 2 && t2[0] == '-' && t2[1] == '-';
                if is_opt {
                    assert(e2 > st2);
                    i = e2;
                } else {
                    assert(first_plain_token(v@, i as int) == Some(t2@));
                    if is_app_id_exec(&t2) {
                        return Some(string_from_chars(&t2));
                    } else {
                        return None;
                    }
                }
            }
        }
    }
    None
}

/// Scans tokens from index `i` for one whose final path segment is a
/// non-trivial bundle file name; yields that segment.
pub open spec fn appimage_scan(s: Seq<char>, i: int) -> Option<Seq<char>>
    decreases s.len() - i
        when 0 <= i <= s.len()
        via appimage_scan_dec
{
    let st = skip_spaces(s, i);
    if st >= s.len() {
        None
    } else {
        let e = skip_non_spaces(s, st);
        let t = s.subrange(st, e);
        let seg = after_last(t, '/');
        if seg.len() > appimage_suffix().len() && ends_with(seg, appimage_suffix()) {
            Some(seg)
        } else {
            appimage_scan(s, e)
        }
    }
}

#[via_fn]
proof fn appimage_scan_dec(s: Seq<char>, i: int) {
    lemma_skip_spaces(s, i);
    if 0 <= skip_spaces(s, i) < s.len() {
        lemma_skip_non_spaces(s, skip_spaces(s, i));
    }
}

/// The self-contained-bundle rewrite: the bundle file name alone.
pub open spec fn appimage_extract(s: Seq<char>) -> Option<Seq<char>> {
    appimage_scan(s, 0)
}

/// Extracts the bundle file name of a self-contained-bundle invocation,
/// discarding the directory prefix.
pub fn handle_appimage(command: &str) -> (r: Option<String>)
    ensures
        match r {
            Some(out) => appimage_extract(command@) == Some(out@),
            None => appimage_extract(command@) is None,
        },
{
    let v = chars_vec(command);
    let suf = appimage_suffix_vec();
    let mut i: usize = 0;
    loop
        invariant
            i <= v@.len(),
            suf@ == appimage_suffix(),
            v@ == command@,
            appimage_scan(v@, 0) == appimage_scan(v@, i as int),
        decreases v@.len() - i,
    {
        let st = skip_spaces_vec(&v, i);
        if st >= v.len() {
            return None;
        }
        let e = skip_non_spaces_vec(&v, st);
        let t = sub_vec(&v, st, e);
        let li = last_index_of_vec(&t, '/');
        let seg: Vec<char>;
        match li {
            Some(k) => {
                seg = sub_vec(&t, k + 1, t.len());
                assert(seg@ == after_last(t@, '/'));
            },
            None => {
                seg = sub_vec(&t, 0, t.len());
                assert(seg@ =~= after_last(t@, '/'));
            },
        }
        if seg.len() > suf.len() && match_at_exec(&seg, seg.len() - suf.len(), &suf) {
            return Some(string_from_chars(&seg));
        }
        assert(e > st);
        i = e;
    }
}

/// The managed-package rewrite: the path component right after the managed
/// tree's root.
pub open spec fn snap_extract(s: Seq<char>) -> Option<Seq<char>> {
    let p = find_sub(s, 0, snap_prefix());
    if p < 0 {
        None
    } else {
        let vs = p + snap_prefix().len();
        let ve = skip_to_char(s, vs, '/');
        if ve > vs {
            Some(s.subrange(vs, ve))
        } else {
            None
        }
    }
}

/// Extracts the package name from a managed-package-tree path.
pub fn handle_snap(command: &str) -> (r: Option<String>)
    ensures
        match r {
            Some(out) => snap_extract(command@) == Some(out@),
            None => snap_extract(command@) is None,
        },
{
    let v = chars_vec(command);
    let sp = snap_prefix_vec();
    match find_sub_exec(&v, 0, &sp) {
        None => None,
        Some(p) => {
            proof {
                lemma_find_sub(v@, 0, sp@);
            }
            let n = v.len();
            assert(p + sp@.len() <= n as int);
            let vs = p + sp.len();
            let ve = skip_to_char_vec(&v, vs, '/');
            if ve > vs {
                Some(string_from_chars(&sub_vec(&v, vs, ve)))
            } else {
                None
            }
        },
    }
}

/// The packaging-scheme normalization chain: the wrapper rewrite first, then
/// the declarative-runner, bundle and managed-tree rewrites; the command
/// verbatim when none of them applies.
pub open spec fn special_commands(s: Seq<char>) -> Seq<char> {
    match nix_unwrap(s) {
        Some(r) => r,
        None => match flatpak_extract(s) {
            Some(r) => r,
            None => match appimage_extract(s) {
                Some(r) => r,
                None => match snap_extract(s) {
                    Some(r) => r,
                    None => s,
                },
            },
        },
    }
}

/// Applies the packaging-scheme normalization chain to a command line.
pub fn handle_special_commands(command: &str) -> (r: String)
    ensures
        r@ == special_commands(command@),
{
    if let Some(s) = handle_nix_wrapped(command) {
        return s;
    }
    if let Some(s) = handle_flatpak(command) {
        return s;
    }
    if let Some(s) = handle_appimage(command) {
        return s;
    }
    if let Some(s) = handle_snap(command) {
        return s;
    }
    String::from_str(command)
}

/// The raw argument vector with its separating NUL bytes turned to spaces.
pub open spec fn nul_to_space(s: Seq<char>) -> Seq<char> {
    s.map_values(
        |c: char|
            if c == '\0' {
                ' '
            } else {
                c
            },
    )
}

/// Index just past the last non-space character of `s`.
pub open spec fn trim_end_idx(s: Seq<char>) -> int
    decreases s.len(),
{
    if s.len() == 0 {
        0
    } else if is_space_char(s[s.len() - 1]) {
        trim_end_idx(s.drop_last())
    } else {
        s.len() as int
    }
}

/// `s` without leading and trailing whitespace.
pub open spec fn trim_spaces(s: Seq<char>) -> Seq<char> {
    let b = skip_spaces(s, 0);
    let e = trim_end_idx(s);
    if b < e {
        s.subrange(b, e)
    } else {
        Seq::empty()
    }
}

/// The cleaned command line: NUL separators turned to spaces, then trimmed.
pub open spec fn clean_cmdline(raw: Seq<char>) -> Seq<char> {
    trim_spaces(nul_to_space(raw))
}

/// Cleans a raw argument-vector string for normalization.
pub fn clean_cmdline_exec(raw: &str) -> (v: Vec<char>)
    ensures
        v@ == clean_cmdline(raw@),
{
    let rv = chars_vec(raw);
    let mut mapped: Vec<char> = Vec::new();
    let n = rv.len();
    let mut i: usize = 0;
    while i < n
        invariant
            n == rv@.len(),
            i <= n,
            mapped@ =~= nul_to_space(rv@).subrange(0, i as int),
        decreases n - i,
    {
        let c = rv[i];
        mapped.push(
            if c == '\0' {
                ' '
            } else {
                c
            },
        );
        assert(mapped@ =~= nul_to_space(rv@).subrange(0, i + 1 as int));
        i = i + 1;
    }
    assert(mapped@ =~= nul_to_space(rv@));
    let b = skip_spaces_vec(&mapped, 0);
    let mut e = mapped.len();
    while e > 0 && is_space(mapped[e - 1])
        invariant
            e <= mapped@.len(),
            trim_end_idx(mapped@) == trim_end_idx(mapped@.subrange(0, e as int)),
        decreases e,
    {
        assert(mapped@.subrange(0, e as int).drop_last() =~= mapped@.subrange(0, e - 1 as int));
        e = e - 1;
    }
    proof {
        let pre = mapped@.subrange(0, e as int);
        if e == 0 {
            assert(pre =~= Seq::<char>::empty());
            assert(trim_end_idx(mapped@) == 0);
        } else {
            assert(pre.len() == e);
            assert(pre[e - 1] == mapped@[e - 1]);
            assert(trim_end_idx(mapped@) == e);
        }
    }
    if b < e {
        sub_vec(&mapped, b, e)
    } else {
        let empty: Vec<char> = Vec::new();
        assert(empty@ =~= trim_spaces(mapped@));
        empty
    }
}

/// The view of an optional string argument.
pub open spec fn view_opt(o: Option<&str>) -> Option<Seq<char>> {
    match o {
        Some(s) => Some(s@),
        None => None,
    }
}

/// The lowercased window-class or window-title hint, or the literal
/// placeholder when both are empty.
pub open spec fn resolve_hint(class: Seq<char>, title: Seq<char>) -> Seq<char> {
    if class.len() > 0 {
        lower_of(class)
    } else if title.len() > 0 {
        lower_of(title)
    } else {
        unknown_word()
    }
}

/// The resolver's answer when no command line is readable: the normalized
/// executable name, then the hints.
pub open spec fn resolve_fallback(
    exe_name: Option<Seq<char>>,
    class: Seq<char>,
    title: Seq<char>,
) -> Seq<char> {
    match exe_name {
        Some(x) => if x.len() > 0 {
            special_commands(x)
        } else {
            resolve_hint(class, title)
        },
        None => resolve_hint(class, title),
    }
}

/// What the resolver returns for given process metadata: the normalized
/// cleaned command line when one is readable and non-empty, then the
/// normalized executable name, then the lowercased hints, then the literal
/// placeholder.
pub open spec fn spec_resolve(
    cmdline: Option<Seq<char>>,
    exe_name: Option<Seq<char>>,
    class: Seq<char>,
    title: Seq<char>,
) -> Seq<char> {
    match cmdline {
        Some(raw) => if clean_cmdline(raw).len() > 0 {
            special_commands(clean_cmdline(raw))
        } else {
            resolve_fallback(exe_name, class, title)
        },
        None => resolve_fallback(exe_name, class, title),
    }
}

/// Resolves a best-effort re-launchable command from process metadata: the
/// raw argument vector when readable, else the executable's file name, else
/// the window-class hint, else the window title, else a placeholder. Never
/// fails: every input yields a command string, and a non-empty one.
///
/// The search-path validation the capture path performs does not change this
/// result: a command found on the search path and a best-guess command are
/// returned alike, a directive with a best-guess command being preferred to
/// none.
pub fn resolve_command(
    cmdline: Option<&str>,
    exe_name: Option<&str>,
    class: &str,
    title: &str,
) -> (r: String)
    ensures
        r@ == spec_resolve(view_opt(cmdline), view_opt(exe_name), class@, title@),
        r@.len() > 0,
{
    proof {
        lemma_special_nonempty(Seq::<char>::empty());
    }
    if let Some(raw) = cmdline {
        let cleaned = clean_cmdline_exec(raw);
        if cleaned.len() > 0 {
            let cs = string_from_chars(&cleaned);
            let out = handle_special_commands(cs.as_str());
            proof {
                lemma_special_nonempty(cleaned@);
            }
            return out;
        }
    }
    if let Some(x) = exe_name {
        if x.unicode_len() > 0 {
            let out = handle_special_commands(x);
            proof {
                lemma_special_nonempty(x@);
            }
            return out;
        }
    }
    if class.unicode_len() > 0 {
        return lowercase(class);
    }
    if title.unicode_len() > 0 {
        return lowercase(title);
    }
    unknown_string()
}

/// A token whose final segment carries the bundle suffix keeps at least the
/// suffix and one more character, so every rewrite in the chain is non-empty.
proof fn lemma_appimage_scan_some_len(s: Seq<char>, i: int)
    requires
        0 <= i <= s.len(),
    ensures
        appimage_scan(s, i) matches Some(seg) ==> seg.len() > appimage_suffix().len(),
    decreases s.len() - i,
{
    lemma_skip_spaces(s, i);
    let st = skip_spaces(s, i);
    if st < s.len() {
        lemma_skip_non_spaces(s, st);
        let e = skip_non_spaces(s, st);
        let t = s.subrange(st, e);
        let seg = after_last(t, '/');
        if !(seg.len() > appimage_suffix().len() && ends_with(seg, appimage_suffix())) {
            lemma_appimage_scan_some_len(s, e);
        }
    }
}

/// The normalization chain never turns a non-empty command into an empty
/// one: each rewrite yields a non-empty name, and the fallback is the
/// command itself.
pub proof fn lemma_special_nonempty(s: Seq<char>)
    ensures
        s.len() > 0 ==> special_commands(s).len() > 0,
{
    match nix_unwrap(s) {
        Some(r) => {
            assert(r.len() > 0);
        },
        None => {
            match flatpak_extract(s) {
                Some(r) => {
                    match flatpak_app_id(s) {
                        Some(r2) => {
                            lemma_find_sub(s, 0, app_id_flag());
                            let p = find_sub(s, 0, app_id_flag());
                            lemma_skip_non_spaces(s, p + app_id_flag().len());
                            assert(r2.len() > 0);
                        },
                        None => {
                            match flatpak_run_id(s) {
                                Some(r3) => {
                                    assert(r3.len() > 0);
                                },
                                None => {
                                },
                            }
                        },
                    }
                },
                None => {
                    match appimage_extract(s) {
                        Some(r) => {
                            lemma_appimage_scan_some_len(s, 0);
                            assert(r.len() > 0);
                        },
                        None => {
                            match snap_extract(s) {
                                Some(r) => {
                                    lemma_find_sub(s, 0, snap_prefix());
                                    let p = find_sub(s, 0, snap_prefix());
                                    lemma_skip_to_char(s, p + snap_prefix().len(), '/');
                                    assert(r.len() > 0);
                                },
                                None => {
                                },
                            }
                        },
                    }
                },
            }
        },
    }
}

/// For every command line of the form `<prefix>-<name>-wrapped <args>` — an
/// opaque prefix free of spaces, a dash, a name free of dashes, slashes and
/// spaces, the wrapper suffix, then arguments — the resolver's normalization
/// yields `<name> <args>`. The final path segment of the prefix must not
/// begin with a dot: such a command is a dot-form wrapper instead.
pub proof fn lemma_wrapper_prefix_rewrite(prefix: Seq<char>, name: Seq<char>, args: Seq<char>)
    requires
        prefix.len() > 0,
        forall|j: int| 0 <= j < prefix.len() ==> !is_space_char(#[trigger] prefix[j]),
        name.len() > 0,
        forall|j: int|
            0 <= j < name.len() ==> !is_space_char(#[trigger] name[j]) && name[j] != '/'
                && name[j] != '-',
        args.len() > 0 ==> is_space_char(args[0]),
        after_last(prefix, '/').len() > 0 ==> after_last(prefix, '/')[0] != '.',
    ensures
        special_commands(prefix + seq!['-'] + name + wrapped_suffix() + args) == name + args,
{
    let cmd = prefix + seq!['-'] + name + wrapped_suffix() + args;
    let plen = prefix.len() as int;
    let nlen = name.len() as int;
    let tlen = plen + 1 + nlen + 8;
    assert(forall|j: int| 0 <= j < 8 ==> !is_space_char(#[trigger] wrapped_suffix()[j]));
    assert(forall|j: int| 0 <= j < tlen ==> !is_space_char(#[trigger] cmd[j]));
    assert(skip_spaces(cmd, 0) == 0);
    lemma_skip_non_spaces_match(cmd, 0, tlen);
    let t = first_token(cmd);
    assert(t =~= prefix + seq!['-'] + name + wrapped_suffix());
    assert(t.subrange(tlen - 8, tlen) =~= wrapped_suffix());
    assert(ends_with(t, wrapped_suffix()));
    let stem = t.subrange(0, tlen - 8);
    assert(stem =~= prefix + seq!['-'] + name);
    let lp = last_index_of(prefix, '/');
    lemma_last_index_of(prefix, '/');
    assert(forall|j: int| lp < j < stem.len() ==> stem[j] != '/');
    lemma_last_index_unique(stem, '/', lp);
    let seg = after_last(stem, '/');
    let tailp = after_last(prefix, '/');
    assert(seg =~= tailp + seq!['-'] + name);
    assert(seg.len() > 0);
    assert(seg[0] != '.');
    let tplen = tailp.len() as int;
    assert(seg[tplen] == '-');
    assert(forall|j: int| tplen < j < seg.len() ==> seg[j] != '-');
    lemma_last_index_unique(seg, '-', tplen);
    assert(after_last(seg, '-') =~= name);
    assert(rest_after_token(cmd) =~= args);
    assert(nix_unwrap(cmd) == Some(name + args));
}

/// Every command line `.<name>-wrapped` — a dot, a name free of slashes and
/// spaces, the wrapper suffix, nothing more — normalizes to `<name>` alone.
pub proof fn lemma_wrapper_dot_rewrite(name: Seq<char>)
    requires
        name.len() > 0,
        forall|j: int|
            0 <= j < name.len() ==> !is_space_char(#[trigger] name[j]) && name[j] != '/',
    ensures
        special_commands(seq!['.'] + name + wrapped_suffix()) == name,
{
    let cmd = seq!['.'] + name + wrapped_suffix();
    let nlen = name.len() as int;
    let tlen = 1 + nlen + 8;
    assert(forall|j: int| 0 <= j < 8 ==> !is_space_char(#[trigger] wrapped_suffix()[j]));
    assert(forall|j: int| 0 <= j < tlen ==> !is_space_char(#[trigger] cmd[j]));
    assert(skip_spaces(cmd, 0) == 0);
    lemma_skip_non_spaces_match(cmd, 0, tlen);
    let t = first_token(cmd);
    assert(t =~= cmd);
    assert(t.subrange(tlen - 8, tlen) =~= wrapped_suffix());
    assert(ends_with(t, wrapped_suffix()));
    let stem = t.subrange(0, tlen - 8);
    assert(stem =~= seq!['.'] + name);
    assert(forall|j: int| -1 < j < stem.len() ==> stem[j] != '/');
    lemma_last_index_unique(stem, '/', -1);
    let seg = after_last(stem, '/');
    assert(seg =~= stem);
    assert(seg[0] == '.');
    assert(seg.subrange(1, seg.len() as int) =~= name);
    assert(rest_after_token(cmd) =~= Seq::<char>::empty());
    assert(name + Seq::<char>::empty() =~= name);
    assert(nix_unwrap(cmd) == Some(name));
}

/// For a declarative-runner invocation carrying an explicit app-id flag,
/// the resolver yields the flag's value, whatever other arguments stand on
/// the line: `pre --app-id=value post` normalizes to `value`, provided the
/// wrapper rewrite does not fire, the line mentions the runner, the flag
/// does not occur earlier, and the value is a non-empty token.
pub proof fn lemma_app_id_flag_wins(pre: Seq<char>, value: Seq<char>, post: Seq<char>)
    requires
        nix_unwrap(pre + app_id_flag() + value + post) is None,
        contains_sub(pre + app_id_flag() + value + post, flatpak_word()),
        forall|j: int|
            0 <= j < pre.len() ==> !match_at(pre + app_id_flag() + value + post, j, app_id_flag()),
        value.len() > 0,
        forall|j: int| 0 <= j < value.len() ==> !is_space_char(#[trigger] value[j]),
        post.len() > 0 ==> is_space_char(post[0]),
    ensures
        special_commands(pre + app_id_flag() + value + post) == value,
{
    let cmd = pre + app_id_flag() + value + post;
    let plen = pre.len() as int;
    let vs = plen + app_id_flag().len();
    let ve = vs + value.len();
    assert(cmd.subrange(plen, vs) =~= app_id_flag());
    assert(match_at(cmd, plen, app_id_flag()));
    lemma_find_sub_unique(cmd, app_id_flag(), plen);
    assert(forall|j: int| vs <= j < ve ==> !is_space_char(#[trigger] cmd[j]));
    lemma_skip_non_spaces_match(cmd, vs, ve);
    assert(cmd.subrange(vs, ve) =~= value);
    assert(flatpak_app_id(cmd) == Some(value));
}

/// For a bundle-suffixed path, the resolver yields exactly the bundle file
/// name, discarding the directory prefix: a command whose first token is
/// `<dir>/<base>.AppImage` normalizes to `<base>.AppImage`, provided the
/// line does not mention the declarative runner.
pub proof fn lemma_bundle_segment(dir: Seq<char>, base: Seq<char>, args: Seq<char>)
    requires
        forall|j: int| 0 <= j < dir.len() ==> !is_space_char(#[trigger] dir[j]),
        base.len() > 0,
        forall|j: int|
            0 <= j < base.len() ==> !is_space_char(#[trigger] base[j]) && base[j] != '/',
        args.len() > 0 ==> is_space_char(args[0]),
        !contains_sub(dir + seq!['/'] + base + appimage_suffix() + args, flatpak_word()),
    ensures
        special_commands(dir + seq!['/'] + base + appimage_suffix() + args) == base
            + appimage_suffix(),
{
    let cmd = dir + seq!['/'] + base + appimage_suffix() + args;
    let dlen = dir.len() as int;
    let blen = base.len() as int;
    let tlen = dlen + 1 + blen + 9;
    assert(forall|j: int| 0 <= j < 9 ==> !is_space_char(#[trigger] appimage_suffix()[j]));
    assert(forall|j: int| 0 <= j < tlen ==> !is_space_char(#[trigger] cmd[j]));
    assert(skip_spaces(cmd, 0) == 0);
    lemma_skip_non_spaces_match(cmd, 0, tlen);
    let t = first_token(cmd);
    assert(t =~= dir + seq!['/'] + base + appimage_suffix());
    // The token ends in the bundle suffix, not the wrapper suffix, so the
    // wrapper rewrite cannot fire.
    assert(t[tlen - 1] == 'e');
    if t.len() > wrapped_suffix().len() && ends_with(t, wrapped_suffix()) {
        assert(t.subrange(tlen - 8, tlen)[7] == t[tlen - 1]);
        assert(wrapped_suffix()[7] == 'd');
        assert(false);
    }
    assert(nix_unwrap(cmd) is None);
    // The bundle scan accepts the first token's final path segment.
    assert(t[dlen] == '/');
    assert(forall|j: int| dlen < j < t.len() ==> t[j] != '/');
    lemma_last_index_unique(t, '/', dlen);
    let seg = after_last(t, '/');
    assert(seg =~= base + appimage_suffix());
    assert(seg.subrange(seg.len() - 9, seg.len() as int) =~= appimage_suffix());
    assert(ends_with(seg, appimage_suffix()));
    assert(appimage_scan(cmd, 0) == Some(seg));
}

} // verus!
