//! The System V init: its inittab with runlevels, the default runlevel,
//! what entering a runlevel runs, and its respawning.
use vstd::prelude::*;
use super::{lemma_pid_index, owner, pid_index, set_count, watched_views, Watched, WatchedView};
use crate::num::{parse_dec, parse_dec_exec};
use crate::text::{
    chars_of, eq_lit, lines, lines_exec, splitn, splitn_exec, starts_with, starts_with_lit,
    string_of, to_string, trim, trim_chars, views, vviews,
};

verus! {

/// Inittab action types.
#[derive(PartialEq, Eq, Structural, Clone, Copy)]
pub enum Action {
    Sysinit,
    Boot,
    Bootwait,
    Wait,
    Once,
    Respawn,
    Ctrlaltdel,
    Shutdown,
    Restart,
    Initdefault,
    Powerwait,
}

/// A parsed inittab entry.
pub struct InittabEntry {
    pub id: String,
    /// Runlevel digits as numbers; `s` and `S` stand for 35 (`'S' - '0'`).
    pub runlevels: Vec<u8>,
    pub action: Action,
    pub process: String,
}

pub struct EntryView {
    pub id: Seq<char>,
    pub runlevels: Seq<u8>,
    pub action: Action,
    pub process: Seq<char>,
}

impl View for InittabEntry {
    type V = EntryView;

    open spec fn view(&self) -> EntryView {
        EntryView { id: self.id@, runlevels: self.runlevels@, action: self.action, process: self.process@ }
    }
}

pub open spec fn entry_views(v: Seq<InittabEntry>) -> Seq<EntryView> {
    v.map_values(|e: InittabEntry| e@)
}

pub use super::rustfs_init::{LineProblem, ProblemView, problem_views};

pub open spec fn action_of(s: Seq<char>) -> Option<Action> {
    if s == "sysinit"@ {
        Some(Action::Sysinit)
    } else if s == "boot"@ {
        Some(Action::Boot)
    } else if s == "bootwait"@ {
        Some(Action::Bootwait)
    } else if s == "wait"@ {
        Some(Action::Wait)
    } else if s == "once"@ {
        Some(Action::Once)
    } else if s == "respawn"@ {
        Some(Action::Respawn)
    } else if s == "ctrlaltdel"@ {
        Some(Action::Ctrlaltdel)
    } else if s == "shutdown"@ {
        Some(Action::Shutdown)
    } else if s == "restart"@ {
        Some(Action::Restart)
    } else if s == "initdefault"@ {
        Some(Action::Initdefault)
    } else if s == "powerwait"@ {
        Some(Action::Powerwait)
    } else {
        None
    }
}

fn action_of_exec(s: &[char]) -> (r: Option<Action>)
    ensures
        r == action_of(s@),
{
    if eq_lit(s, "sysinit") {
        Some(Action::Sysinit)
    } else if eq_lit(s, "boot") {
        Some(Action::Boot)
    } else if eq_lit(s, "bootwait") {
        Some(Action::Bootwait)
    } else if eq_lit(s, "wait") {
        Some(Action::Wait)
    } else if eq_lit(s, "once") {
        Some(Action::Once)
    } else if eq_lit(s, "respawn") {
        Some(Action::Respawn)
    } else if eq_lit(s, "ctrlaltdel") {
        Some(Action::Ctrlaltdel)
    } else if eq_lit(s, "shutdown") {
        Some(Action::Shutdown)
    } else if eq_lit(s, "restart") {
        Some(Action::Restart)
    } else if eq_lit(s, "initdefault") {
        Some(Action::Initdefault)
    } else if eq_lit(s, "powerwait") {
        Some(Action::Powerwait)
    } else {
        None
    }
}

/// The runlevel a character names, if it names one.
pub open spec fn runlevel_of(c: char) -> Option<u8> {
    if '0' <= c && c <= '9' {
        Some((c as u32 - 48) as u8)
    } else if c == 's' || c == 'S' {
        Some(35)
    } else {
        None
    }
}

/// The runlevels named in a runlevel field (other characters are skipped).
pub open spec fn runlevels_spec(s: Seq<char>) -> Seq<u8> {
    s.filter_map(|c: char| runlevel_of(c))
}

fn runlevels_exec(s: &[char]) -> (r: Vec<u8>)
    ensures
        r@ == runlevels_spec(s@),
{
    let ghost f = |c: char| runlevel_of(c);
    let mut r: Vec<u8> = Vec::new();
    let mut i: usize = 0;
    assert(s@.take(0) =~= Seq::<char>::empty());
    while i < s.len()
        invariant
            i <= s@.len(),
            f == (|c: char| runlevel_of(c)),
            r@ == s@.take(i as int).filter_map(f),
        decreases s@.len() - i,
    {
        let c = s[i];
        if '0' <= c && c <= '9' {
            r.push(((c as u32) - 48) as u8);
        } else if c == 's' || c == 'S' {
            r.push(35);
        }
        proof {
            crate::applets::ip::lemma_filter_map_push(s@.take(i as int), c, f);
            assert(s@.take(i + 1) =~= s@.take(i as int).push(c));
        }
        i = i + 1;
    }
    assert(s@.take(s@.len() as int) =~= s@);
    r
}

pub enum LineResult {
    Skip,
    Entry(EntryView),
    Problem(ProblemView),
}

/// What one line (numbered `n` from 1) holds. Entries are
/// `id:runlevels:action:process`.
pub open spec fn line_spec(line: Seq<char>, n: nat) -> LineResult {
    let l = trim(line);
    if l.len() == 0 || starts_with(l, "#"@) {
        LineResult::Skip
    } else {
        let parts = splitn(l, 4, ':');
        if parts.len() != 4 {
            LineResult::Problem(ProblemView::Malformed(n))
        } else {
            match action_of(parts[2]) {
                Some(a) => LineResult::Entry(
                    EntryView {
                        id: parts[0],
                        runlevels: runlevels_spec(parts[1]),
                        action: a,
                        process: parts[3],
                    },
                ),
                None => LineResult::Problem(ProblemView::UnknownAction(n, parts[2])),
            }
        }
    }
}

pub open spec fn parse_lines(ls: Seq<Seq<char>>, i: int) -> (Seq<EntryView>, Seq<ProblemView>)
    decreases ls.len() - i,
{
    if i < 0 || i >= ls.len() {
        (seq![], seq![])
    } else {
        let (e, p) = parse_lines(ls, i + 1);
        match line_spec(ls[i], (i + 1) as nat) {
            LineResult::Skip => (e, p),
            LineResult::Entry(x) => (seq![x] + e, p),
            LineResult::Problem(x) => (e, seq![x] + p),
        }
    }
}

pub open spec fn inittab_spec(content: Seq<char>) -> (Seq<EntryView>, Seq<ProblemView>) {
    parse_lines(lines(content), 0)
}

/// Parses inittab text: the entries, in order, when there is at least one,
/// and the problems of the skipped lines, in order.
pub fn parse_inittab(content: &str) -> (r: (Result<Vec<InittabEntry>, String>, Vec<LineProblem>))
    ensures
        ({
            let (es, ps) = inittab_spec(content@);
            &&& problem_views(r.1@) == ps
            &&& match r.0 {
                Ok(v) => entry_views(v@) == es && es.len() > 0,
                Err(m) => es.len() == 0 && m@ == "no valid entries found"@,
            }
        }),
{
    let c = chars_of(content);
    let ls = lines_exec(c.as_slice());
    let ghost lv = vviews(ls@);
    let mut entries: Vec<InittabEntry> = Vec::new();
    let mut problems: Vec<LineProblem> = Vec::new();
    let mut i: usize = 0;
    assert(entry_views(entries@) =~= Seq::<EntryView>::empty());
    assert(problem_views(problems@) =~= Seq::<ProblemView>::empty());
    while i < ls.len()
        invariant
            i <= ls@.len(),
            lv == vviews(ls@),
            lv == lines(content@),
            ({
                let (e, p) = parse_lines(lv, i as int);
                let (e0, p0) = parse_lines(lv, 0);
                entry_views(entries@) + e == e0 && problem_views(problems@) + p == p0
            }),
        decreases ls@.len() - i,
    {
        let ghost eb = entry_views(entries@);
        let ghost pb = problem_views(problems@);
        assert(lv[i as int] == ls@[i as int]@);
        let l = trim_chars(ls[i].as_slice());
        if l.len() == 0 || starts_with_lit(l.as_slice(), "#") {
        } else {
            let parts = splitn_exec(l.as_slice(), 4, ':');
            let ghost pv = vviews(parts@);
            if parts.len() != 4 {
                problems.push(LineProblem::Malformed(i + 1));
                assert(problem_views(problems@) =~= pb.push(ProblemView::Malformed((i + 1) as nat)));
            } else {
                assert(parts@[0]@ == pv[0] && parts@[1]@ == pv[1] && parts@[2]@ == pv[2]
                    && parts@[3]@ == pv[3]);
                match action_of_exec(parts[2].as_slice()) {
                    Some(act) => {
                        let e = InittabEntry {
                            id: string_of(parts[0].as_slice()),
                            runlevels: runlevels_exec(parts[1].as_slice()),
                            action: act,
                            process: string_of(parts[3].as_slice()),
                        };
                        let ghost ev = e@;
                        entries.push(e);
                        assert(entry_views(entries@) =~= eb.push(ev));
                    },
                    None => {
                        let p = LineProblem::UnknownAction(i + 1, string_of(parts[2].as_slice()));
                        let ghost pvv = p@;
                        problems.push(p);
                        assert(problem_views(problems@) =~= pb.push(pvv));
                    },
                }
            }
        }
        proof {
            let (e1, p1) = parse_lines(lv, i + 1);
            assert(parse_lines(lv, i as int) == match line_spec(lv[i as int], (i + 1) as nat) {
                LineResult::Skip => (e1, p1),
                LineResult::Entry(x) => (seq![x] + e1, p1),
                LineResult::Problem(x) => (e1, seq![x] + p1),
            });
            assert(entry_views(entries@) + e1 =~= eb + parse_lines(lv, i as int).0);
            assert(problem_views(problems@) + p1 =~= pb + parse_lines(lv, i as int).1);
        }
        i = i + 1;
    }
    proof {
        let (e, p) = parse_lines(lv, i as int);
        assert(e =~= Seq::<EntryView>::empty());
        assert(p =~= Seq::<ProblemView>::empty());
        assert(entry_views(entries@) =~= parse_lines(lv, 0).0);
        assert(problem_views(problems@) =~= parse_lines(lv, 0).1);
    }
    if entries.len() == 0 {
        return (Err(to_string("no valid entries found")), problems);
    }
    (Ok(entries), problems)
}

/// The first argument that is a runlevel 0 to 6, if any.
pub open spec fn arg_runlevel(args: Seq<Seq<char>>) -> Option<u8>
    decreases args.len(),
{
    if args.len() == 0 {
        None
    } else {
        match parse_dec(args[0], 255) {
            Some(v) => if v <= 6 {
                Some(v as u8)
            } else {
                arg_runlevel(args.drop_first())
            },
            None => arg_runlevel(args.drop_first()),
        }
    }
}

/// The first runlevel of the first `initdefault` entry that names one.
pub open spec fn initdefault_runlevel(es: Seq<EntryView>) -> Option<u8>
    decreases es.len(),
{
    if es.len() == 0 {
        None
    } else if es[0].action == Action::Initdefault && es[0].runlevels.len() > 0 {
        Some(es[0].runlevels[0])
    } else {
        initdefault_runlevel(es.drop_first())
    }
}

/// The runlevel to enter: from the arguments (as the kernel passes it),
/// else from `initdefault`, else 3.
pub open spec fn default_runlevel_spec(es: Seq<EntryView>, args: Seq<Seq<char>>) -> u8 {
    match arg_runlevel(args) {
        Some(r) => r,
        None => match initdefault_runlevel(es) {
            Some(r) => r,
            None => 3,
        },
    }
}

/// Chooses the runlevel to enter (see `default_runlevel_spec`).
pub fn get_default_runlevel(entries: &[InittabEntry], args: &[String]) -> (r: u8)
    ensures
        r == default_runlevel_spec(entry_views(entries@), views(args@)),
{
    let ghost sv = views(args@);
    let ghost ev = entry_views(entries@);
    let mut i: usize = 0;
    assert(sv.skip(0) =~= sv);
    while i < args.len()
        invariant
            i <= args@.len(),
            sv == views(args@),
            arg_runlevel(sv.skip(i as int)) == arg_runlevel(sv),
        decreases args@.len() - i,
    {
        let a = chars_of(args[i].as_str());
        assert(sv.skip(i as int)[0] == a@);
        assert(sv.skip(i as int).drop_first() =~= sv.skip(i + 1));
        match parse_dec_exec(a.as_slice(), 255) {
            Some(v) => {
                if v <= 6 {
                    return v as u8;
                }
            },
            None => {},
        }
        i = i + 1;
    }
    assert(sv.skip(i as int) =~= Seq::<Seq<char>>::empty());
    let mut j: usize = 0;
    assert(ev.skip(0) =~= ev);
    while j < entries.len()
        invariant
            j <= entries@.len(),
            ev == entry_views(entries@),
            sv == views(args@),
            arg_runlevel(sv) is None,
            initdefault_runlevel(ev.skip(j as int)) == initdefault_runlevel(ev),
        decreases entries@.len() - j,
    {
        assert(ev.skip(j as int)[0] == entries@[j as int]@);
        assert(ev.skip(j as int).drop_first() =~= ev.skip(j + 1));
        if entries[j].action == Action::Initdefault && entries[j].runlevels.len() > 0 {
            assert(ev.skip(j as int)[0].runlevels[0] == entries@[j as int].runlevels@[0]);
            return entries[j].runlevels[0];
        }
        j = j + 1;
    }
    assert(ev.skip(j as int) =~= Seq::<EntryView>::empty());
    3
}

/// One step of bringing the system up.
pub enum BootStep {
    /// Run the entry's process and wait for it.
    RunWait(usize),
    /// Start the entry's process and carry on.
    Spawn(usize),
    /// Start the entry's process and start it again whenever it exits.
    Respawn(usize),
}

pub enum StepView {
    RunWait(nat),
    Spawn(nat),
    Respawn(nat),
}

impl View for BootStep {
    type V = StepView;

    open spec fn view(&self) -> StepView {
        match self {
            BootStep::RunWait(i) => StepView::RunWait(*i as nat),
            BootStep::Spawn(i) => StepView::Spawn(*i as nat),
            BootStep::Respawn(i) => StepView::Respawn(*i as nat),
        }
    }
}

/// Which entries a step kind selects: kinds 0 to 2 are `sysinit`, `boot`
/// and `bootwait` (whatever their runlevels); kinds 3 to 5 are `wait`,
/// `once` and `respawn` entries that list the runlevel.
pub open spec fn selects(kind: nat, e: EntryView, rl: u8) -> bool {
    if kind == 0 {
        e.action == Action::Sysinit
    } else if kind == 1 {
        e.action == Action::Boot
    } else if kind == 2 {
        e.action == Action::Bootwait
    } else if kind == 3 {
        e.action == Action::Wait && e.runlevels.contains(rl)
    } else if kind == 4 {
        e.action == Action::Once && e.runlevels.contains(rl)
    } else {
        e.action == Action::Respawn && e.runlevels.contains(rl)
    }
}

pub open spec fn step_of(kind: nat, i: nat) -> StepView {
    if kind <= 3 {
        StepView::RunWait(i)
    } else if kind == 4 {
        StepView::Spawn(i)
    } else {
        StepView::Respawn(i)
    }
}

pub open spec fn steps_of_kind(es: Seq<EntryView>, n: int, kind: nat, rl: u8) -> Seq<StepView>
    decreases n,
{
    if n <= 0 || n > es.len() {
        seq![]
    } else {
        let rest = steps_of_kind(es, n - 1, kind, rl);
        if selects(kind, es[n - 1], rl) {
            rest.push(step_of(kind, (n - 1) as nat))
        } else {
            rest
        }
    }
}

/// Booting into runlevel `rl`: every `sysinit`, then every `boot`, then
/// every `bootwait` entry run in turn; then, of the entries that list `rl`,
/// every `wait` entry run in turn, every `once` entry started, and every
/// `respawn` entry started and kept running; each group in file order.
pub open spec fn boot_spec(es: Seq<EntryView>, rl: u8) -> Seq<StepView> {
    let n = es.len() as int;
    steps_of_kind(es, n, 0, rl) + steps_of_kind(es, n, 1, rl) + steps_of_kind(es, n, 2, rl)
        + steps_of_kind(es, n, 3, rl) + steps_of_kind(es, n, 4, rl) + steps_of_kind(es, n, 5, rl)
}

fn contains_u8(v: &[u8], x: u8) -> (r: bool)
    ensures
        r == v@.contains(x),
{
    let mut i: usize = 0;
    while i < v.len()
        invariant
            i <= v@.len(),
            forall|k: int| 0 <= k < i ==> v@[k] != x,
        decreases v@.len() - i,
    {
        if v[i] == x {
            assert(v@[i as int] == x);
            return true;
        }
        i = i + 1;
    }
    false
}

fn push_kind(out: &mut Vec<BootStep>, entries: &[InittabEntry], kind: u8, rl: u8)
    requires
        kind <= 5,
    ensures
        final(out)@.map_values(|s: BootStep| s@) == old(out)@.map_values(|s: BootStep| s@)
            + steps_of_kind(entry_views(entries@), entries@.len() as int, kind as nat, rl),
{
    let ghost es = entry_views(entries@);
    let ghost base = out@.map_values(|s: BootStep| s@);
    let mut i: usize = 0;
    assert(out@.map_values(|s: BootStep| s@) =~= base + steps_of_kind(es, 0, kind as nat, rl));
    while i < entries.len()
        invariant
            i <= entries@.len(),
            kind <= 5,
            es == entry_views(entries@),
            out@.map_values(|s: BootStep| s@) == base + steps_of_kind(es, i as int, kind as nat, rl),
        decreases entries@.len() - i,
    {
        let e = &entries[i];
        assert(es[i as int] == e@);
        let before = Ghost(out@.map_values(|s: BootStep| s@));
        let hit = if kind == 0 {
            e.action == Action::Sysinit
        } else if kind == 1 {
            e.action == Action::Boot
        } else if kind == 2 {
            e.action == Action::Bootwait
        } else if kind == 3 {
            e.action == Action::Wait && contains_u8(e.runlevels.as_slice(), rl)
        } else if kind == 4 {
            e.action == Action::Once && contains_u8(e.runlevels.as_slice(), rl)
        } else {
            e.action == Action::Respawn && contains_u8(e.runlevels.as_slice(), rl)
        };
        assert(hit == selects(kind as nat, e@, rl));
        if hit {
            let s = if kind <= 3 {
                BootStep::RunWait(i)
            } else if kind == 4 {
                BootStep::Spawn(i)
            } else {
                BootStep::Respawn(i)
            };
            assert(s@ == step_of(kind as nat, i as nat));
            out.push(s);
            assert(out@.map_values(|s: BootStep| s@) =~= before@.push(step_of(kind as nat, i as nat)));
        }
        assert(out@.map_values(|s: BootStep| s@) =~= base + steps_of_kind(es, i + 1, kind as nat, rl));
        i = i + 1;
    }
}

/// Decides what booting into runlevel `rl` runs (see `boot_spec`).
pub fn boot_plan(entries: &[InittabEntry], rl: u8) -> (r: Vec<BootStep>)
    ensures
        r@.map_values(|s: BootStep| s@) == boot_spec(entry_views(entries@), rl),
{
    let mut out: Vec<BootStep> = Vec::new();
    assert(out@.map_values(|s: BootStep| s@) =~= Seq::<StepView>::empty());
    push_kind(&mut out, entries, 0, rl);
    push_kind(&mut out, entries, 1, rl);
    push_kind(&mut out, entries, 2, rl);
    push_kind(&mut out, entries, 3, rl);
    push_kind(&mut out, entries, 4, rl);
    push_kind(&mut out, entries, 5, rl);
    assert(out@.map_values(|s: BootStep| s@) =~= boot_spec(entry_views(entries@), rl));
    out
}

/// When a respawned process exits: the count goes up; past 10 the start is
/// delayed 5 seconds and the count starts again from 0. Returns the new
/// count and the delay in seconds.
pub open spec fn respawn_spec(count: u32) -> (u32, u64) {
    if count + 1 > 10 {
        (0, 5)
    } else {
        ((count + 1) as u32, 0)
    }
}

/// Decides the throttling of a respawn (see `respawn_spec`).
pub fn respawn_delay(count: u32) -> (r: (u32, u64))
    ensures
        r == respawn_spec(count),
{
    if count >= 10 {
        (0, 5)
    } else {
        (count + 1, 0)
    }
}

/// When the process `pid` exits: where it is a respawned process init
/// keeps, its record's count is throttled (see `respawn_spec`) and the
/// record, its entry and the delay before the entry starts again are
/// returned; any other process is ignored.
pub fn child_exited(t: &mut Vec<Watched>, pid: i32) -> (r: Option<(usize, usize, u64)>)
    ensures
        match pid_index(watched_views(old(t)@), pid, 0) {
            None => r is None && final(t)@ == old(t)@,
            Some(k) => {
                let w = watched_views(old(t)@)[k];
                &&& r matches Some((a, e, d)) && a == k && e == w.entry && d == respawn_spec(w.count).1
                &&& watched_views(final(t)@) == watched_views(old(t)@).update(
                    k,
                    WatchedView { count: respawn_spec(w.count).0, ..w },
                )
            },
        },
{
    match owner(t.as_slice(), pid) {
        None => None,
        Some(k) => {
            proof {
                lemma_pid_index(watched_views(t@), pid, 0);
            }
            let ghost w = watched_views(t@)[k as int];
            assert(w == t@[k as int]@);
            let entry = t[k].entry;
            let (c, d) = respawn_delay(t[k].count);
            set_count(t, k, c);
            Some((k, entry, d))
        },
    }
}

/// What `init` does when it is not process 1.
pub enum Telinit {
    /// No argument: print the usage, status 1.
    Usage,
    /// `0`: send SIGUSR1 to process 1 (shutdown).
    Halt,
    /// `6`: send SIGUSR2 to process 1 (reboot).
    Reboot,
    /// `q` or `Q`: send SIGHUP to process 1 (re-read inittab).
    Reload,
    /// Anything else: announce the runlevel and send SIGHUP to process 1.
    Switch(String),
}

/// Decides what `init args...` does when not process 1.
pub fn telinit(args: &[String]) -> (r: Telinit)
    ensures
        args@.len() == 0 ==> r is Usage,
        args@.len() > 0 ==> {
            let a = args@[0]@;
            if a == "0"@ {
                r is Halt
            } else if a == "6"@ {
                r is Reboot
            } else if a == "q"@ || a == "Q"@ {
                r is Reload
            } else {
                r matches Telinit::Switch(s) && s@ == a
            }
        },
{
    if args.len() == 0 {
        return Telinit::Usage;
    }
    let a = chars_of(args[0].as_str());
    if eq_lit(a.as_slice(), "0") {
        Telinit::Halt
    } else if eq_lit(a.as_slice(), "6") {
        Telinit::Reboot
    } else if eq_lit(a.as_slice(), "q") || eq_lit(a.as_slice(), "Q") {
        Telinit::Reload
    } else {
        Telinit::Switch(args[0].clone())
    }
}

/// The inittab path: the first argument that starts with `--inittab=`,
/// with every leading `--inittab=` removed, or /etc/inittab.
pub fn inittab_path(args: &[String]) -> (r: String)
    ensures
        r@ == match super::option_value_spec(views(args@), "--inittab="@) {
            Some(v) => v,
            None => "/etc/inittab"@,
        },
{
    match super::option_value(args, "--inittab=") {
        Some(v) => v,
        None => to_string("/etc/inittab"),
    }
}


/// A step that runs a `wait` entry.
pub open spec fn is_wait_step(es: Seq<EntryView>, v: StepView) -> bool {
    v matches StepView::RunWait(i) && es[i as int].action == Action::Wait
}

/// The entry a step is about.
pub open spec fn step_entry(v: StepView) -> nat {
    match v {
        StepView::RunWait(i) => i,
        StepView::Spawn(i) => i,
        StepView::Respawn(i) => i,
    }
}

proof fn lemma_steps_of_kind(es: Seq<EntryView>, n: int, kind: nat, rl: u8)
    requires
        0 <= n <= es.len(),
    ensures
        forall|p: int|
            0 <= p < steps_of_kind(es, n, kind, rl).len() ==> {
                let v = #[trigger] steps_of_kind(es, n, kind, rl)[p];
                &&& step_entry(v) < n
                &&& selects(kind, es[step_entry(v) as int], rl)
                &&& v == step_of(kind, step_entry(v))
            },
        forall|i: int| 0 <= i < n && selects(kind, #[trigger] es[i], rl) ==> steps_of_kind(es, n, kind, rl).contains(step_of(kind, i as nat)),
        forall|p: int, q: int|
            0 <= p < q < steps_of_kind(es, n, kind, rl).len() ==> step_entry(#[trigger] steps_of_kind(es, n, kind, rl)[p])
                < step_entry(#[trigger] steps_of_kind(es, n, kind, rl)[q]),
    decreases n,
{
    if n > 0 {
        lemma_steps_of_kind(es, n - 1, kind, rl);
        let rest = steps_of_kind(es, n - 1, kind, rl);
        let s = steps_of_kind(es, n, kind, rl);
        if selects(kind, es[n - 1], rl) {
            let v = step_of(kind, (n - 1) as nat);
            assert(s == rest.push(v));
            assert(step_entry(v) == n - 1);
            assert(s[rest.len() as int] == v);
            assert forall|i: int| 0 <= i < n && selects(kind, #[trigger] es[i], rl) implies s.contains(step_of(kind, i as nat)) by {
                if i < n - 1 {
                    let p = choose|p: int| 0 <= p < rest.len() && rest[p] == step_of(kind, i as nat);
                    assert(s[p] == rest[p]);
                }
            }
            assert forall|p: int, q: int| 0 <= p < q < s.len() implies step_entry(#[trigger] s[p]) < step_entry(#[trigger] s[q]) by {
                assert(s[p] == rest[p]);
                if q < rest.len() {
                    assert(s[q] == rest[q]);
                }
            }
        }
    }
}

/// Booting into runlevel `rl`: the `sysinit`, `boot` and `bootwait`
/// entries and the `wait` entries that list `rl` are run and waited for,
/// the `once` entries that list `rl` started, the `respawn` entries that
/// list `rl` started and kept running, each of these exactly, and no other
/// entry; nothing is started before every waited-for entry has run, the
/// `respawn` entries come last, and the `wait` entries run in file order.
pub proof fn lemma_boot_order(es: Seq<EntryView>, rl: u8)
    ensures
        forall|p: int|
            0 <= p < boot_spec(es, rl).len() ==> step_entry(#[trigger] boot_spec(es, rl)[p]) < es.len() && match boot_spec(es, rl)[p] {
                StepView::RunWait(i) => {
                    let a = es[i as int].action;
                    a == Action::Sysinit || a == Action::Boot || a == Action::Bootwait || (a == Action::Wait
                        && es[i as int].runlevels.contains(rl))
                },
                StepView::Spawn(i) => es[i as int].action == Action::Once && es[i as int].runlevels.contains(rl),
                StepView::Respawn(i) => es[i as int].action == Action::Respawn && es[i as int].runlevels.contains(rl),
            },
        forall|i: int|
            0 <= i < es.len() && (#[trigger] es[i]).runlevels.contains(rl) ==> {
                &&& es[i].action == Action::Wait ==> boot_spec(es, rl).contains(StepView::RunWait(i as nat))
                &&& es[i].action == Action::Once ==> boot_spec(es, rl).contains(StepView::Spawn(i as nat))
                &&& es[i].action == Action::Respawn ==> boot_spec(es, rl).contains(StepView::Respawn(i as nat))
            },
        forall|p: int, q: int|
            0 <= p < q < boot_spec(es, rl).len() ==> {
                &&& !(#[trigger] boot_spec(es, rl)[p] is Spawn && #[trigger] boot_spec(es, rl)[q] is RunWait)
                &&& !(boot_spec(es, rl)[p] is Respawn && !(boot_spec(es, rl)[q] is Respawn))
                &&& is_wait_step(es, boot_spec(es, rl)[p]) && is_wait_step(es, boot_spec(es, rl)[q])
                    ==> step_entry(boot_spec(es, rl)[p]) < step_entry(boot_spec(es, rl)[q])
            },
{
    let n = es.len() as int;
    let s0 = steps_of_kind(es, n, 0, rl);
    let s1 = steps_of_kind(es, n, 1, rl);
    let s2 = steps_of_kind(es, n, 2, rl);
    let s3 = steps_of_kind(es, n, 3, rl);
    let s4 = steps_of_kind(es, n, 4, rl);
    let s5 = steps_of_kind(es, n, 5, rl);
    lemma_steps_of_kind(es, n, 0, rl);
    lemma_steps_of_kind(es, n, 1, rl);
    lemma_steps_of_kind(es, n, 2, rl);
    lemma_steps_of_kind(es, n, 3, rl);
    lemma_steps_of_kind(es, n, 4, rl);
    lemma_steps_of_kind(es, n, 5, rl);
    let plan = boot_spec(es, rl);
    let o1 = s0.len() as int;
    let o2 = o1 + s1.len();
    let o3 = o2 + s2.len();
    let o4 = o3 + s3.len();
    let o5 = o4 + s4.len();
    assert(plan == s0 + s1 + s2 + s3 + s4 + s5);
    assert forall|p: int| 0 <= p < plan.len() implies
        (p < o1 ==> plan[p] == s0[p]) && (o1 <= p < o2 ==> plan[p] == s1[p - o1]) && (o2 <= p < o3 ==> plan[p] == s2[p - o2])
        && (o3 <= p < o4 ==> plan[p] == s3[p - o3]) && (o4 <= p < o5 ==> plan[p] == s4[p - o4]) && (o5 <= p ==> plan[p] == s5[p - o5]) by {}
    assert forall|p: int| 0 <= p < plan.len() implies
        (p < o4 <==> #[trigger] plan[p] is RunWait) && (o4 <= p < o5 <==> plan[p] is Spawn) && (o5 <= p <==> plan[p] is Respawn)
        && (is_wait_step(es, plan[p]) ==> o3 <= p) by {
        if p < o1 {
            assert(s0[p] == plan[p]);
        } else if p < o2 {
            assert(s1[p - o1] == plan[p]);
        } else if p < o3 {
            assert(s2[p - o2] == plan[p]);
        } else if p < o4 {
            assert(s3[p - o3] == plan[p]);
        } else if p < o5 {
            assert(s4[p - o4] == plan[p]);
        } else {
            assert(s5[p - o5] == plan[p]);
        }
    }
    assert forall|i: int| 0 <= i < es.len() && (#[trigger] es[i]).runlevels.contains(rl) implies {
        &&& es[i].action == Action::Wait ==> plan.contains(StepView::RunWait(i as nat))
        &&& es[i].action == Action::Once ==> plan.contains(StepView::Spawn(i as nat))
        &&& es[i].action == Action::Respawn ==> plan.contains(StepView::Respawn(i as nat))
    } by {
        if es[i].action == Action::Wait {
            assert(selects(3, es[i], rl));
            let p = choose|p: int| 0 <= p < s3.len() && s3[p] == step_of(3, i as nat);
            assert(plan[o3 + p] == s3[p]);
        }
        if es[i].action == Action::Once {
            assert(selects(4, es[i], rl));
            let p = choose|p: int| 0 <= p < s4.len() && s4[p] == step_of(4, i as nat);
            assert(plan[o4 + p] == s4[p]);
        }
        if es[i].action == Action::Respawn {
            assert(selects(5, es[i], rl));
            let p = choose|p: int| 0 <= p < s5.len() && s5[p] == step_of(5, i as nat);
            assert(plan[o5 + p] == s5[p]);
        }
    }
    assert forall|p: int, q: int| 0 <= p < q < plan.len() && is_wait_step(es, plan[p]) && is_wait_step(es, plan[q])
        implies step_entry(plan[p]) < step_entry(plan[q]) by {
        assert(o3 <= p && q < o4);
        assert(plan[p] == s3[p - o3] && plan[q] == s3[q - o3]);
    }
}

} // verus!
