//! getopt: reads an option string, long option names and parameters, and
//! gives the parameters back in canonical order, quoted.
use vstd::prelude::*;
use crate::text::{
    chars_of, chars_of_all, copy_chars, ends_with, ends_with_lit, eq_chars, eq_lit, find_char,
    find_char_exec, join, join_exec, push_all, push_str, slice_chars, split_exec, split_on,
    split_once, split_once_exec, starts_with, starts_with_lit, string_of, trim_char_end,
    trim_char_end_exec, trim_prefix_all, trim_prefix_all_exec, vviews,
};

verus! {

/// What the words before the parameters set up.
pub struct Setup {
    pub optstring: Seq<char>,
    pub longopts: Seq<Seq<char>>,
    pub params: Seq<Seq<char>>,
    pub name: Seq<char>,
    pub found_sep: bool,
}

pub open spec fn setup_start() -> Setup {
    Setup {
        optstring: seq![],
        longopts: seq![],
        params: seq![],
        name: "getopt"@,
        found_sep: false,
    }
}

/// Reading the words of the invocation from `i` on: `-o`, `-l` and `-n`
/// take the next word; after `--` every word is a parameter; the first
/// word that does not start with `-` is the option string where none was
/// given. `None`: help was asked for.
pub open spec fn setup_scan(args: Seq<Seq<char>>, i: int, s: Setup) -> Option<Setup>
    decreases args.len() - i,
{
    if i < 0 || i >= args.len() {
        Some(s)
    } else if s.found_sep {
        setup_scan(args, i + 1, Setup { params: s.params.push(args[i]), ..s })
    } else {
        let a = args[i];
        if a == "-o"@ || a == "--options"@ {
            if i + 1 < args.len() {
                setup_scan(args, i + 2, Setup { optstring: args[i + 1], ..s })
            } else {
                Some(s)
            }
        } else if a == "-l"@ || a == "--longoptions"@ {
            if i + 1 < args.len() {
                setup_scan(args, i + 2, Setup { longopts: split_on(args[i + 1], ','), ..s })
            } else {
                Some(s)
            }
        } else if a == "-n"@ || a == "--name"@ {
            if i + 1 < args.len() {
                setup_scan(args, i + 2, Setup { name: args[i + 1], ..s })
            } else {
                Some(s)
            }
        } else if a == "--"@ {
            setup_scan(args, i + 1, Setup { found_sep: true, ..s })
        } else if a == "-h"@ || a == "--help"@ {
            None
        } else if s.optstring.len() == 0 && !starts_with(a, "-"@) {
            setup_scan(args, i + 1, Setup { optstring: a, ..s })
        } else {
            setup_scan(args, i + 1, Setup { params: s.params.push(a), ..s })
        }
    }
}

/// `s` in single quotes.
pub open spec fn quote(s: Seq<char>) -> Seq<char> {
    seq!['\''] + s + seq!['\'']
}

/// The option character found at `p` in the option string takes an
/// argument: it is ASCII and a `:` follows it.
pub open spec fn takes_arg(opt: Seq<char>, p: int, c: char) -> bool {
    (c as u32) < 0x80 && p + 1 < opt.len() && opt[p + 1] == ':'
}

/// A long option's name, without the trailing `:` that says it takes an
/// argument.
pub open spec fn long_name(l: Seq<char>) -> Seq<char> {
    trim_char_end(l, ':')
}

pub open spec fn known_long(longs: Seq<Seq<char>>, key: Seq<char>) -> bool {
    exists|j: int| 0 <= j < longs.len() && #[trigger] long_name(longs[j]) == key
}

pub open spec fn long_needs_arg(longs: Seq<Seq<char>>, key: Seq<char>) -> bool {
    exists|j: int|
        0 <= j < longs.len() && ends_with(longs[j], ":"@) && #[trigger] long_name(longs[j]) == key
}

/// The output so far, the parameters that are not options, and the error
/// that stopped the reading.
pub struct Parsed {
    pub out: Seq<Seq<char>>,
    pub non: Seq<Seq<char>>,
    pub err: Option<Seq<char>>,
}

/// The characters of a short-option word from `ci` on; `pi` is the
/// parameter being read. An option that takes an argument takes the rest
/// of the word, or else the next parameter.
pub open spec fn short_opts(
    opt: Seq<char>,
    name: Seq<char>,
    cs: Seq<char>,
    ci: int,
    params: Seq<Seq<char>>,
    pi: int,
    st: Parsed,
) -> (int, Parsed)
    decreases cs.len() - ci,
{
    if ci < 0 || ci >= cs.len() {
        (pi, st)
    } else {
        let c = cs[ci];
        match find_char(opt, c) {
            None => (
                pi,
                Parsed { err: Some(name + ": invalid option -- '"@ + seq![c] + "'"@), ..st },
            ),
            Some(p) => {
                let st1 = Parsed { out: st.out.push(seq!['-', c]), ..st };
                if takes_arg(opt, p, c) {
                    if ci + 1 < cs.len() {
                        (pi, Parsed { out: st1.out.push(quote(cs.skip(ci + 1))), ..st1 })
                    } else {
                        let st2 = if pi + 1 < params.len() {
                            Parsed { out: st1.out.push(quote(params[pi + 1])), ..st1 }
                        } else {
                            st1
                        };
                        short_opts(opt, name, cs, ci + 1, params, pi + 1, st2)
                    }
                } else {
                    short_opts(opt, name, cs, ci + 1, params, pi, st1)
                }
            },
        }
    }
}

/// Reading a cluster of short options never moves back in the
/// parameters.
pub proof fn lemma_short_opts_moves_on(
    opt: Seq<char>,
    name: Seq<char>,
    cs: Seq<char>,
    ci: int,
    params: Seq<Seq<char>>,
    pi: int,
    st: Parsed,
)
    ensures
        short_opts(opt, name, cs, ci, params, pi, st).0 >= pi,
    decreases cs.len() - ci,
{
    if 0 <= ci < cs.len() {
        let c = cs[ci];
        match find_char(opt, c) {
            None => {},
            Some(p) => {
                let st1 = Parsed { out: st.out.push(seq!['-', c]), ..st };
                if takes_arg(opt, p, c) {
                    if ci + 1 >= cs.len() {
                        let st2 = if pi + 1 < params.len() {
                            Parsed { out: st1.out.push(quote(params[pi + 1])), ..st1 }
                        } else {
                            st1
                        };
                        lemma_short_opts_moves_on(opt, name, cs, ci + 1, params, pi + 1, st2);
                    }
                } else {
                    lemma_short_opts_moves_on(opt, name, cs, ci + 1, params, pi, st1);
                }
            },
        }
    }
}

/// The key and the value of a long option word (after its leading `-`s),
/// split at the first `=`.
pub open spec fn long_key(on: Seq<char>) -> (Seq<char>, Option<Seq<char>>) {
    match split_once(on, '=') {
        Some((k, v)) => (k, Some(v)),
        None => (on, None),
    }
}

/// Reading the parameters from `pi` on: `--` ends the options; a word
/// starting with `--` is a long option, one starting with `-` a group of
/// short options; other words are kept for the end.
pub open spec fn parse_params(
    opt: Seq<char>,
    longs: Seq<Seq<char>>,
    name: Seq<char>,
    params: Seq<Seq<char>>,
    pi: int,
    st: Parsed,
) -> Parsed
    decreases params.len() - pi,
{
    if pi < 0 || pi >= params.len() {
        st
    } else {
        let p = params[pi];
        if p == "--"@ {
            Parsed { non: st.non + params.skip(pi + 1), ..st }
        } else if starts_with(p, "--"@) {
            let key = long_key(trim_prefix_all(p, "-"@)).0;
            let value = long_key(trim_prefix_all(p, "-"@)).1;
            if known_long(longs, key) {
                let st1 = Parsed { out: st.out.push("--"@ + key), ..st };
                if long_needs_arg(longs, key) {
                    match value {
                        Some(v) => parse_params(
                            opt,
                            longs,
                            name,
                            params,
                            pi + 1,
                            Parsed { out: st1.out.push(quote(v)), ..st1 },
                        ),
                        None => if pi + 1 < params.len() {
                            parse_params(
                                opt,
                                longs,
                                name,
                                params,
                                pi + 2,
                                Parsed { out: st1.out.push(quote(params[pi + 1])), ..st1 },
                            )
                        } else {
                            st1
                        },
                    }
                } else {
                    parse_params(opt, longs, name, params, pi + 1, st1)
                }
            } else {
                Parsed { err: Some(name + ": unrecognized option '--"@ + key + "'"@), ..st }
            }
        } else if starts_with(p, "-"@) && p.len() > 1 {
            let r = short_opts(opt, name, p.skip(1), 0, params, pi, st);
            if r.1.err is Some {
                r.1
            } else {
                proof {
                    lemma_short_opts_moves_on(opt, name, p.skip(1), 0, params, pi, st);
                }
                if r.0 + 1 < params.len() {
                    parse_params(opt, longs, name, params, r.0 + 1, r.1)
                } else {
                    r.1
                }
            }
        } else {
            parse_params(opt, longs, name, params, pi + 1, Parsed { non: st.non.push(p), ..st })
        }
    }
}

pub open spec fn parse_start() -> Parsed {
    Parsed { out: seq![], non: seq![], err: None }
}

/// What getopt does.
pub enum GetoptOutcome {
    /// Help was asked for: print the usage, succeed.
    Help,
    /// Neither an option string nor parameters: print the usage, fail.
    Usage,
    /// An unknown option: print the message, fail.
    Failed(String),
    /// Print the line, succeed.
    Parsed(String),
}

pub enum OutcomeView {
    Help,
    Usage,
    Failed(Seq<char>),
    Parsed(Seq<char>),
}

impl View for GetoptOutcome {
    type V = OutcomeView;

    open spec fn view(&self) -> OutcomeView {
        match self {
            GetoptOutcome::Help => OutcomeView::Help,
            GetoptOutcome::Usage => OutcomeView::Usage,
            GetoptOutcome::Failed(m) => OutcomeView::Failed(m@),
            GetoptOutcome::Parsed(l) => OutcomeView::Parsed(l@),
        }
    }
}

/// The line getopt prints: the options, `--`, then the other parameters
/// quoted, separated by spaces.
pub open spec fn output_line(st: Parsed) -> Seq<char> {
    join(st.out.push("--"@) + st.non.map_values(|n: Seq<char>| quote(n)), " "@)
}

/// What getopt does with the words of its invocation. Where no `--` was
/// given and no parameter was collected, the first word is the option
/// string and the others are the parameters.
pub open spec fn getopt_spec(args: Seq<Seq<char>>) -> OutcomeView {
    match setup_scan(args, 0, setup_start()) {
        None => OutcomeView::Help,
        Some(s) => if s.optstring.len() == 0 && s.params.len() == 0 {
            OutcomeView::Usage
        } else {
            let traditional = !s.found_sep && s.params.len() == 0 && args.len() > 1;
            let opt = if traditional {
                args[0]
            } else {
                s.optstring
            };
            let params = if traditional {
                args.skip(1)
            } else {
                s.params
            };
            let st = parse_params(opt, s.longopts, s.name, params, 0, parse_start());
            match st.err {
                Some(m) => OutcomeView::Failed(m),
                None => OutcomeView::Parsed(output_line(st)),
            }
        },
    }
}

struct SetupRun {
    optstring: Vec<char>,
    longopts: Vec<Vec<char>>,
    params: Vec<Vec<char>>,
    name: Vec<char>,
    found_sep: bool,
}

impl SetupRun {
    closed spec fn view(&self) -> Setup {
        Setup {
            optstring: self.optstring@,
            longopts: vviews(self.longopts@),
            params: vviews(self.params@),
            name: self.name@,
            found_sep: self.found_sep,
        }
    }
}

fn push_chars(v: &mut Vec<Vec<char>>, s: Vec<char>)
    ensures
        vviews(final(v)@) == vviews(old(v)@).push(s@),
{
    let ghost s0 = s@;
    v.push(s);
    assert(vviews(v@) =~= vviews(old(v)@).push(s0));
}

/// Reads the words of the invocation (see `setup_scan`).
fn read_setup(cs: &Vec<Vec<char>>) -> (r: Option<SetupRun>)
    ensures
        match r {
            Some(s) => setup_scan(vviews(cs@), 0, setup_start()) == Some(s.view()),
            None => setup_scan(vviews(cs@), 0, setup_start()) is None,
        },
{
    let ghost av = vviews(cs@);
    let mut s = SetupRun {
        optstring: Vec::new(),
        longopts: Vec::new(),
        params: Vec::new(),
        name: chars_of("getopt"),
        found_sep: false,
    };
    assert(vviews(s.longopts@) =~= Seq::<Seq<char>>::empty());
    assert(vviews(s.params@) =~= Seq::<Seq<char>>::empty());
    assert(s.view() =~= setup_start());
    let n = cs.len();
    let mut i: usize = 0;
    while i < n
        invariant
            n == cs@.len(),
            av == vviews(cs@),
            i <= n,
            setup_scan(av, i as int, s.view()) == setup_scan(av, 0, setup_start()),
        decreases n - i,
    {
        let a = cs[i].as_slice();
        assert(av[i as int] == a@);
        if s.found_sep {
            push_chars(&mut s.params, copy_chars(a));
            i = i + 1;
        } else if eq_lit(a, "-o") || eq_lit(a, "--options") {
            if i + 1 < n {
                assert(av[i + 1] == cs@[i + 1]@);
                s.optstring = copy_chars(cs[i + 1].as_slice());
                i = i + 2;
            } else {
                return Some(s);
            }
        } else if eq_lit(a, "-l") || eq_lit(a, "--longoptions") {
            if i + 1 < n {
                assert(av[i + 1] == cs@[i + 1]@);
                s.longopts = split_exec(cs[i + 1].as_slice(), ',');
                i = i + 2;
            } else {
                return Some(s);
            }
        } else if eq_lit(a, "-n") || eq_lit(a, "--name") {
            if i + 1 < n {
                assert(av[i + 1] == cs@[i + 1]@);
                s.name = copy_chars(cs[i + 1].as_slice());
                i = i + 2;
            } else {
                return Some(s);
            }
        } else if eq_lit(a, "--") {
            s.found_sep = true;
            i = i + 1;
        } else if eq_lit(a, "-h") || eq_lit(a, "--help") {
            return None;
        } else if s.optstring.len() == 0 && !starts_with_lit(a, "-") {
            s.optstring = copy_chars(a);
            i = i + 1;
        } else {
            push_chars(&mut s.params, copy_chars(a));
            i = i + 1;
        }
    }
    Some(s)
}

struct ParseRun {
    out: Vec<Vec<char>>,
    non: Vec<Vec<char>>,
    err: Option<Vec<char>>,
}

impl ParseRun {
    closed spec fn view(&self) -> Parsed {
        Parsed {
            out: vviews(self.out@),
            non: vviews(self.non@),
            err: match self.err {
                Some(e) => Some(e@),
                None => None,
            },
        }
    }
}

fn quote_exec(s: &[char]) -> (r: Vec<char>)
    ensures
        r@ == quote(s@),
{
    let mut r: Vec<char> = Vec::new();
    r.push('\'');
    push_all(&mut r, s);
    r.push('\'');
    assert(r@ =~= quote(s@));
    r
}

/// `s` is the name of a long option that `longs` knows; and it takes an
/// argument.
fn find_long(longs: &Vec<Vec<char>>, key: &[char]) -> (r: (bool, bool))
    ensures
        r.0 == known_long(vviews(longs@), key@),
        r.1 == long_needs_arg(vviews(longs@), key@),
{
    let ghost lv = vviews(longs@);
    let mut known = false;
    let mut needs = false;
    let mut j: usize = 0;
    while j < longs.len()
        invariant
            j <= longs@.len(),
            lv == vviews(longs@),
            known == exists|u: int| 0 <= u < j && #[trigger] long_name(lv[u]) == key@,
            needs == exists|u: int|
                0 <= u < j && ends_with(lv[u], ":"@) && #[trigger] long_name(lv[u]) == key@,
        decreases longs@.len() - j,
    {
        let l = longs[j].as_slice();
        assert(lv[j as int] == l@);
        let t = trim_char_end_exec(l, ':');
        let same = eq_chars(t.as_slice(), key);
        if same {
            known = true;
            if ends_with_lit(l, ":") {
                needs = true;
            }
        }
        assert(long_name(lv[j as int]) == t@);
        j = j + 1;
    }
    (known, needs)
}

/// Reads a group of short options (see `short_opts`).
fn read_short(
    opt: &[char],
    name: &[char],
    cs: &[char],
    params: &Vec<Vec<char>>,
    pi_in: usize,
    st_in: ParseRun,
) -> (r: (usize, ParseRun))
    requires
        pi_in < params@.len(),
        st_in.err is None,
    ensures
        (r.0 as int, r.1.view()) == short_opts(
            opt@,
            name@,
            cs@,
            0,
            vviews(params@),
            pi_in as int,
            st_in.view(),
        ),
{
    let ghost start = st_in.view();
    let mut st = st_in;
    let ghost pv = vviews(params@);
    let ghost pi0 = pi_in;
    let mut ci: usize = 0;
    let mut pi = pi_in;
    let plen = params.len();
    while ci < cs.len()
        invariant
            plen == params@.len(),
            start == st_in.view(),
            pi0 == pi_in,
            ci <= cs@.len(),
            pv == vviews(params@),
            pi < params@.len() || ci == cs@.len(),
            pi <= params@.len(),
            st.err is None,
            short_opts(opt@, name@, cs@, ci as int, pv, pi as int, st.view()) == short_opts(
                opt@,
                name@,
                cs@,
                0,
                pv,
                pi0 as int,
                start,
            ),
        decreases cs@.len() - ci,
    {
        let c = cs[ci];
        assert(pi < params@.len());
        let ghost s0 = st.view();
        match find_char_exec(opt, c) {
            None => {
                let mut m = copy_chars(name);
                push_str(&mut m, ": invalid option -- '");
                m.push(c);
                push_str(&mut m, "'");
                let ghost msg = name@ + ": invalid option -- '"@ + seq![c] + "'"@;
                assert(m@ =~= msg);
                st.err = Some(m);
                assert(short_opts(opt@, name@, cs@, ci as int, pv, pi as int, s0) == (
                    pi as int,
                    Parsed { err: Some(msg), ..s0 },
                ));
                return (pi, st);
            },
            Some(p) => {
                let mut d: Vec<char> = Vec::new();
                d.push('-');
                d.push(c);
                assert(d@ =~= seq!['-', c]);
                push_chars(&mut st.out, d);
                assert(p < opt@.len());
                let code: u32 = c as u32;
                let takes = code < 0x80 && p < opt.len() - 1 && opt[p + 1] == ':';
                if takes {
                    if ci + 1 < cs.len() {
                        let rest = slice_chars(cs, ci + 1, cs.len());
                        assert(rest@ =~= cs@.skip(ci + 1));
                        push_chars(&mut st.out, quote_exec(rest.as_slice()));
                        return (pi, st);
                    } else {
                        if pi + 1 < plen {
                            assert(pv[pi + 1] == params@[pi + 1]@);
                            push_chars(&mut st.out, quote_exec(params[pi + 1].as_slice()));
                        }
                        pi = pi + 1;
                    }
                }
            },
        }
        ci = ci + 1;
    }
    (pi, st)
}

/// Reads the parameters (see `parse_params`).
fn read_params(
    opt: &[char],
    longs: &Vec<Vec<char>>,
    name: &[char],
    params: &Vec<Vec<char>>,
) -> (r: ParseRun)
    ensures
        r.view() == parse_params(opt@, vviews(longs@), name@, vviews(params@), 0, parse_start()),
{
    let ghost pv = vviews(params@);
    let ghost lv = vviews(longs@);
    let mut st = ParseRun { out: Vec::new(), non: Vec::new(), err: None };
    assert(vviews(st.out@) =~= Seq::<Seq<char>>::empty());
    assert(vviews(st.non@) =~= Seq::<Seq<char>>::empty());
    assert(st.view() == parse_start());
    let ghost full = parse_params(opt@, lv, name@, pv, 0, parse_start());
    let n = params.len();
    let mut pi: usize = 0;
    while pi < n
        invariant
            n == params@.len(),
            pv == vviews(params@),
            lv == vviews(longs@),
            full == parse_params(opt@, lv, name@, pv, 0, parse_start()),
            st.err is None,
            parse_params(opt@, lv, name@, pv, pi as int, st.view()) == full,
        decreases n - pi,
    {
        let p = params[pi].as_slice();
        assert(pv[pi as int] == p@);
        if eq_lit(p, "--") {
            let ghost non0 = vviews(st.non@);
            let ghost s0 = st.view();
            let mut k: usize = pi + 1;
            while k < n
                invariant
                    pi < k <= n,
                    n == params@.len(),
                    pv == vviews(params@),
                    lv == vviews(longs@),
                    full == parse_params(opt@, lv, name@, pv, 0, parse_start()),
                    parse_params(opt@, lv, name@, pv, pi as int, s0) == full,
                    s0.non == non0,
                    vviews(st.out@) == s0.out,
                    st.err is None,
                    s0.err is None,
                    vviews(st.non@) == non0 + pv.subrange(pi + 1, k as int),
                decreases n - k,
            {
                assert(pv[k as int] == params@[k as int]@);
                push_chars(&mut st.non, copy_chars(params[k].as_slice()));
                assert(pv.subrange(pi + 1, k + 1) =~= pv.subrange(pi + 1, k as int).push(
                    pv[k as int],
                ));
                k = k + 1;
            }
            assert(pv.subrange(pi + 1, n as int) =~= pv.skip(pi + 1));
            return st;
        } else if starts_with_lit(p, "--") {
            let on = trim_prefix_all_exec(p, "-");
            let (key, value) = match split_once_exec(on.as_slice(), '=') {
                Some((k, v)) => (k, Some(v)),
                None => (copy_chars(on.as_slice()), None),
            };
            assert(key@ == long_key(trim_prefix_all(p@, "-"@)).0);
            let (known, needs) = find_long(longs, key.as_slice());
            if !known {
                let ghost s0 = st.view();
                let mut m = copy_chars(name);
                push_str(&mut m, ": unrecognized option '--");
                push_all(&mut m, key.as_slice());
                push_str(&mut m, "'");
                let ghost msg = name@ + ": unrecognized option '--"@ + key@ + "'"@;
                assert(m@ =~= msg);
                st.err = Some(m);
                assert(!known_long(lv, key@));
                assert(parse_params(opt@, lv, name@, pv, pi as int, s0) == Parsed {
                    err: Some(msg),
                    ..s0
                });
                assert(st.view() == Parsed { err: Some(msg), ..s0 });
                return st;
            }
            let mut d = chars_of("--");
            push_all(&mut d, key.as_slice());
            push_chars(&mut st.out, d);
            if needs {
                match value {
                    Some(v) => {
                        assert(long_key(trim_prefix_all(p@, "-"@)).1 == Some(v@));
                        push_chars(&mut st.out, quote_exec(v.as_slice()));
                        pi = pi + 1;
                    },
                    None => {
                        assert(long_key(trim_prefix_all(p@, "-"@)).1 is None);
                        if pi + 1 < n {
                            assert(pv[pi + 1] == params@[pi + 1]@);
                            push_chars(&mut st.out, quote_exec(params[pi + 1].as_slice()));
                            pi = pi + 2;
                        } else {
                            return st;
                        }
                    },
                }
            } else {
                pi = pi + 1;
            }
        } else if starts_with_lit(p, "-") && p.len() > 1 {
            let cs = slice_chars(p, 1, p.len());
            assert(cs@ =~= p@.skip(1));
            let ghost st0 = st.view();
            let (npi, st1) = read_short(opt, name, cs.as_slice(), params, pi, st);
            st = st1;
            if st.err.is_some() {
                return st;
            }
            proof {
                lemma_short_opts_moves_on(opt@, name@, p@.skip(1), 0, pv, pi as int, st0);
            }
            if npi >= n {
                return st;
            }
            pi = npi + 1;
        } else {
            push_chars(&mut st.non, copy_chars(p));
            pi = pi + 1;
        }
    }
    st
}

/// What getopt does with the words of its invocation (see `getopt_spec`).
pub fn run(args: &[String]) -> (r: GetoptOutcome)
    ensures
        r@ == getopt_spec(crate::text::views(args@)),
{
    let cs = chars_of_all(args);
    assert(vviews(cs@) =~= crate::text::views(args@));
    let s = match read_setup(&cs) {
        None => {
            return GetoptOutcome::Help;
        },
        Some(s) => s,
    };
    if s.optstring.len() == 0 && s.params.len() == 0 {
        return GetoptOutcome::Usage;
    }
    let traditional = !s.found_sep && s.params.len() == 0 && cs.len() > 1;
    let (opt, params) = if traditional {
        let mut rest: Vec<Vec<char>> = Vec::new();
        let mut k: usize = 1;
        while k < cs.len()
            invariant
                1 <= k <= cs@.len(),
                vviews(rest@) == vviews(cs@).subrange(1, k as int),
            decreases cs@.len() - k,
        {
            push_chars(&mut rest, copy_chars(cs[k].as_slice()));
            assert(vviews(cs@).subrange(1, k + 1) =~= vviews(cs@).subrange(1, k as int).push(
                cs@[k as int]@,
            ));
            k = k + 1;
        }
        assert(vviews(cs@).subrange(1, cs@.len() as int) =~= vviews(cs@).skip(1));
        (copy_chars(cs[0].as_slice()), rest)
    } else {
        (s.optstring, s.params)
    };
    let st = read_params(opt.as_slice(), &s.longopts, s.name.as_slice(), &params);
    match st.err {
        Some(m) => GetoptOutcome::Failed(string_of(m.as_slice())),
        None => {
            let mut items = st.out;
            let ghost o0 = vviews(items@);
            push_chars(&mut items, chars_of("--"));
            let ghost o1 = vviews(items@);
            let mut k: usize = 0;
            while k < st.non.len()
                invariant
                    k <= st.non@.len(),
                    vviews(items@) == o1 + vviews(st.non@).take(k as int).map_values(
                        |n: Seq<char>| quote(n),
                    ),
                decreases st.non@.len() - k,
            {
                push_chars(&mut items, quote_exec(st.non[k].as_slice()));
                assert(vviews(st.non@).take(k + 1).map_values(|n: Seq<char>| quote(n))
                    =~= vviews(st.non@).take(k as int).map_values(|n: Seq<char>| quote(n)).push(
                    quote(st.non@[k as int]@),
                ));
                k = k + 1;
            }
            assert(vviews(st.non@).take(st.non@.len() as int) =~= vviews(st.non@));
            let line = join_exec(&items, " ");
            GetoptOutcome::Parsed(string_of(line.as_slice()))
        },
    }
}

} // verus!
