//! The command-line argument grammar of the session tool: the run mode and
//! the capture/replay switches, parsed from a plain argument list.
use crate::num::{dec_val, is_digit, is_digit_char, lemma_dec_val_nonneg, lemma_dec_val_prefix};
use crate::strutil::{chars_vec, str_eq};
use vstd::prelude::*;
use vstd::string::*;

verus! {

/// The run mode of the session tool.
#[derive(Clone, Copy, PartialEq, Eq, Structural, Debug)]
pub enum Mode {
    /// Load the session, then save it at intervals.
    Default,
    /// Save the session at intervals.
    SaveOnly,
    /// Save the session once, then exit.
    SaveAndExit,
    /// Load the session, then exit.
    LoadAndExit,
}

/// The mathematical value of a parsed argument list.
pub struct ArgsV {
    pub mode: Option<Mode>,
    pub save_duplicate_pids: bool,
    pub save_interval: Option<int>,
    pub session_path: Option<Seq<char>>,
    pub simulate: bool,
}

/// The parsed command-line arguments.
#[derive(Clone, Debug)]
pub struct Args {
    /// The run mode, when given.
    pub mode: Option<Mode>,
    /// Whether to keep one directive per window of a shared process id.
    pub save_duplicate_pids: bool,
    /// Seconds between saves, when given.
    pub save_interval: Option<u64>,
    /// Where sessions are stored, when given.
    pub session_path: Option<String>,
    /// Whether window-manager calls are only simulated.
    pub simulate: bool,
}

impl View for Args {
    type V = ArgsV;

    open spec fn view(&self) -> ArgsV {
        ArgsV {
            mode: self.mode,
            save_duplicate_pids: self.save_duplicate_pids,
            save_interval: match self.save_interval {
                Some(v) => Some(v as int),
                None => None,
            },
            session_path: match self.session_path {
                Some(ref p) => Some(p@),
                None => None,
            },
            simulate: self.simulate,
        }
    }
}

pub open spec fn w_mode() -> Seq<char> {
    seq!['-', '-', 'm', 'o', 'd', 'e']
}

pub open spec fn w_mode_short() -> Seq<char> {
    seq!['-', 'm']
}

pub open spec fn w_interval() -> Seq<char> {
    seq!['-', '-', 's', 'a', 'v', 'e', '-', 'i', 'n', 't', 'e', 'r', 'v', 'a', 'l']
}

pub open spec fn w_interval_short() -> Seq<char> {
    seq!['-', 'i']
}

pub open spec fn w_path() -> Seq<char> {
    seq!['-', '-', 's', 'e', 's', 's', 'i', 'o', 'n', '-', 'p', 'a', 't', 'h']
}

pub open spec fn w_path_short() -> Seq<char> {
    seq!['-', 's']
}

pub open spec fn w_simulate() -> Seq<char> {
    seq!['-', '-', 's', 'i', 'm', 'u', 'l', 'a', 't', 'e']
}

pub open spec fn w_dup() -> Seq<char> {
    seq![
        '-',
        '-',
        's',
        'a',
        'v',
        'e',
        '-',
        'd',
        'u',
        'p',
        'l',
        'i',
        'c',
        'a',
        't',
        'e',
        '-',
        'p',
        'i',
        'd',
        's',
    ]
}

pub open spec fn m_default() -> Seq<char> {
    seq!['d', 'e', 'f', 'a', 'u', 'l', 't']
}

pub open spec fn m_save_only() -> Seq<char> {
    seq!['s', 'a', 'v', 'e', '-', 'o', 'n', 'l', 'y']
}

pub open spec fn m_save_and_exit() -> Seq<char> {
    seq!['s', 'a', 'v', 'e', '-', 'a', 'n', 'd', '-', 'e', 'x', 'i', 't']
}

pub open spec fn m_load_and_exit() -> Seq<char> {
    seq!['l', 'o', 'a', 'd', '-', 'a', 'n', 'd', '-', 'e', 'x', 'i', 't']
}

/// The mode a mode-argument value names, if any.
pub open spec fn mode_of(t: Seq<char>) -> Option<Mode> {
    if t == m_default() {
        Some(Mode::Default)
    } else if t == m_save_only() {
        Some(Mode::SaveOnly)
    } else if t == m_save_and_exit() {
        Some(Mode::SaveAndExit)
    } else if t == m_load_and_exit() {
        Some(Mode::LoadAndExit)
    } else {
        None
    }
}

/// The value of an interval argument: a non-empty all-digit token whose
/// value fits the interval's type.
pub open spec fn u64_of_token(t: Seq<char>) -> Option<int> {
    if t.len() > 0 && (forall|j: int| 0 <= j < t.len() ==> is_digit_char(#[trigger] t[j]))
        && dec_val(t) <= 0xffff_ffff_ffff_ffff {
        Some(dec_val(t))
    } else {
        None
    }
}

/// The empty argument set: nothing given, nothing switched on.
pub open spec fn default_args() -> ArgsV {
    ArgsV {
        mode: None,
        save_duplicate_pids: false,
        save_interval: None,
        session_path: None,
        simulate: false,
    }
}

/// The parse of the arguments from index `i` on, given what is parsed so
/// far: each switch updates its field, a value-taking switch consumes the
/// next argument, and an unknown or malformed argument fails the parse.
pub open spec fn spec_parse_args(args: Seq<Seq<char>>, i: int, acc: ArgsV) -> Option<ArgsV>
    decreases args.len() - i,
{
    if i < 0 {
        None
    } else if i >= args.len() {
        Some(acc)
    } else {
        let a = args[i];
        if a == w_mode() || a == w_mode_short() {
            if i + 1 >= args.len() {
                None
            } else {
                match mode_of(args[i + 1]) {
                    Some(md) => spec_parse_args(args, i + 2, ArgsV { mode: Some(md), ..acc }),
                    None => None,
                }
            }
        } else if a == w_interval() || a == w_interval_short() {
            if i + 1 >= args.len() {
                None
            } else {
                match u64_of_token(args[i + 1]) {
                    Some(v) => spec_parse_args(
                        args,
                        i + 2,
                        ArgsV { save_interval: Some(v), ..acc },
                    ),
                    None => None,
                }
            }
        } else if a == w_path() || a == w_path_short() {
            if i + 1 >= args.len() {
                None
            } else {
                spec_parse_args(args, i + 2, ArgsV { session_path: Some(args[i + 1]), ..acc })
            }
        } else if a == w_simulate() {
            spec_parse_args(args, i + 1, ArgsV { simulate: true, ..acc })
        } else if a == w_dup() {
            spec_parse_args(args, i + 1, ArgsV { save_duplicate_pids: true, ..acc })
        } else {
            None
        }
    }
}

/// The views of an argument list.
pub open spec fn args_view(v: Seq<String>) -> Seq<Seq<char>> {
    v.map_values(|a: String| a@)
}

/// The parse of a full argument list: the leading program name is skipped,
/// the rest is parsed switch by switch.
pub open spec fn spec_parse(args: Seq<Seq<char>>) -> Option<ArgsV> {
    if args.len() == 0 {
        None
    } else {
        spec_parse_args(args, 1, default_args())
    }
}

fn is_tok(s: &String, lit: &str) -> (r: bool)
    ensures
        r == (s@ == lit@),
{
    str_eq(s.as_str(), lit)
}

/// Names the mode a mode-argument value stands for, if any.
fn mode_of_exec(t: &String) -> (r: Option<Mode>)
    ensures
        r == mode_of(t@),
{
    proof {
        reveal_strlit("default");
        assert("default"@ =~= m_default());
        reveal_strlit("save-only");
        assert("save-only"@ =~= m_save_only());
        reveal_strlit("save-and-exit");
        assert("save-and-exit"@ =~= m_save_and_exit());
        reveal_strlit("load-and-exit");
        assert("load-and-exit"@ =~= m_load_and_exit());
    }
    if is_tok(t, "default") {
        Some(Mode::Default)
    } else if is_tok(t, "save-only") {
        Some(Mode::SaveOnly)
    } else if is_tok(t, "save-and-exit") {
        Some(Mode::SaveAndExit)
    } else if is_tok(t, "load-and-exit") {
        Some(Mode::LoadAndExit)
    } else {
        None
    }
}

/// Reads an interval value: a non-empty all-digit token fitting the
/// interval's type.
fn parse_u64_token(t: &String) -> (r: Option<u64>)
    ensures
        match r {
            Some(v) => u64_of_token(t@) == Some(v as int),
            None => u64_of_token(t@) is None,
        },
{
    let v = chars_vec(t.as_str());
    let n = v.len();
    if n == 0 {
        return None;
    }
    let mut i: usize = 0;
    let mut acc: u64 = 0;
    while i < n
        invariant
            n == v@.len(),
            v@ == t@,
            i <= n,
            forall|j: int| 0 <= j < i ==> is_digit_char(#[trigger] v@[j]),
            acc as int == dec_val(v@.subrange(0, i as int)),
        decreases n - i,
    {
        let c = v[i];
        if !is_digit(c) {
            return None;
        }
        let d: u64 = (c as u32 as u64) - 48;
        proof {
            let pre = v@.subrange(0, i as int);
            let cur = v@.subrange(0, i + 1 as int);
            assert(cur.drop_last() =~= pre);
            assert(cur.last() == v@[i as int]);
            assert(crate::num::digit_val_of(v@[i as int]) == d as int);
            lemma_dec_val_nonneg(pre);
        }
        if acc > (0xffff_ffff_ffff_ffffu64 - d) / 10 {
            proof {
                crate::num::lemma_mul10_gt(acc as int, d as int, 0xffff_ffff_ffff_ffff);
                assert(dec_val(v@.subrange(0, i + 1 as int)) > 0xffff_ffff_ffff_ffff);
                assert(forall|j: int| 0 <= j < i + 1 ==> is_digit_char(#[trigger] v@[j]));
                if forall|j: int| 0 <= j < v@.len() ==> is_digit_char(#[trigger] v@[j]) {
                    lemma_dec_val_prefix(v@, i + 1);
                    assert(dec_val(v@) > 0xffff_ffff_ffff_ffff);
                }
            }
            return None;
        }
        proof {
            crate::num::lemma_mul10_le(acc as int, d as int, 0xffff_ffff_ffff_ffff);
        }
        acc = acc * 10 + d;
        i = i + 1;
    }
    proof {
        assert(v@.subrange(0, n as int) =~= v@);
    }
    Some(acc)
}

/// Parses the command-line arguments: the run mode, the duplicate-pid
/// switch, the save interval, the session path and the simulate switch.
/// An unknown argument, a missing or unrecognized value, or an empty
/// argument list yields nothing rather than a half-read argument set.
pub fn parse_args(args: &Vec<String>) -> (r: Option<Args>)
    ensures
        match r {
            Some(a) => spec_parse(args_view(args@)) == Some(a@),
            None => spec_parse(args_view(args@)) is None,
        },
{
    let ghost av = args_view(args@);
    let n = args.len();
    if n == 0 {
        return None;
    }
    let mut mode: Option<Mode> = None;
    let mut save_duplicate_pids = false;
    let mut save_interval: Option<u64> = None;
    let mut session_path: Option<String> = None;
    let mut simulate = false;
    let mut i: usize = 1;
    proof {
        let a0 = Args {
            mode: None,
            save_duplicate_pids: false,
            save_interval: None,
            session_path: None,
            simulate: false,
        };
        assert(a0@ == default_args());
    }
    loop
        invariant
            n == args@.len(),
            1 <= n,
            av == args_view(args@),
            av.len() == n,
            1 <= i,
            spec_parse_args(av, 1, default_args()) == spec_parse_args(
                av,
                i as int,
                ArgsV {
                    mode: mode,
                    save_duplicate_pids: save_duplicate_pids,
                    save_interval: match save_interval {
                        Some(v) => Some(v as int),
                        None => None,
                    },
                    session_path: match session_path {
                        Some(ref p) => Some(p@),
                        None => None,
                    },
                    simulate: simulate,
                },
            ),
        decreases n + 1 - i,
    {
        if i >= n {
            let out = Args { mode, save_duplicate_pids, save_interval, session_path, simulate };
            return Some(out);
        }
        let a = &args[i];
        proof {
            assert(av[i as int] == args@[i as int]@);
            reveal_strlit("--mode");
            assert("--mode"@ =~= w_mode());
            reveal_strlit("-m");
            assert("-m"@ =~= w_mode_short());
            reveal_strlit("--save-interval");
            assert("--save-interval"@ =~= w_interval());
            reveal_strlit("-i");
            assert("-i"@ =~= w_interval_short());
            reveal_strlit("--session-path");
            assert("--session-path"@ =~= w_path());
            reveal_strlit("-s");
            assert("-s"@ =~= w_path_short());
            reveal_strlit("--simulate");
            assert("--simulate"@ =~= w_simulate());
            reveal_strlit("--save-duplicate-pids");
            assert("--save-duplicate-pids"@ =~= w_dup());
        }
        if is_tok(a, "--mode") || is_tok(a, "-m") {
            if i + 1 >= n {
                return None;
            }
            proof {
                assert(av[i + 1] == args@[i + 1]@);
            }
            match mode_of_exec(&args[i + 1]) {
                Some(md) => {
                    mode = Some(md);
                    i = i + 2;
                },
                None => {
                    return None;
                },
            }
        } else if is_tok(a, "--save-interval") || is_tok(a, "-i") {
            if i + 1 >= n {
                return None;
            }
            proof {
                assert(av[i + 1] == args@[i + 1]@);
            }
            match parse_u64_token(&args[i + 1]) {
                Some(v) => {
                    save_interval = Some(v);
                    i = i + 2;
                },
                None => {
                    return None;
                },
            }
        } else if is_tok(a, "--session-path") || is_tok(a, "-s") {
            if i + 1 >= n {
                return None;
            }
            proof {
                assert(av[i + 1] == args@[i + 1]@);
            }
            session_path = Some(args[i + 1].clone());
            i = i + 2;
        } else if is_tok(a, "--simulate") {
            simulate = true;
            i = i + 1;
        } else if is_tok(a, "--save-duplicate-pids") {
            save_duplicate_pids = true;
            i = i + 1;
        } else {
            return None;
        }
    }
}

} // verus!
