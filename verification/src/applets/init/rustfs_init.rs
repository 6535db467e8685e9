//! The simple init: its inittab, its boot order and its respawning.
use vstd::prelude::*;
use crate::text::{chars_of, eq_lit, lines, lines_exec, splitn, splitn_exec, starts_with, starts_with_lit, string_of, to_string, trim, trim_chars, views, vviews};
use super::{lemma_pid_index, owner, pid_index, set_count, watched_views, Watched, WatchedView};

verus! {

/// Inittab action types.
#[derive(PartialEq, Eq, Structural, Clone, Copy)]
pub enum Action {
    Sysinit,
    Wait,
    Once,
    Respawn,
    Askfirst,
    Shutdown,
    Restart,
    Ctrlaltdel,
}

/// A parsed inittab entry.
pub struct InittabEntry {
    pub id: String,
    pub action: Action,
    pub process: String,
}

pub struct EntryView {
    pub id: Seq<char>,
    pub action: Action,
    pub process: Seq<char>,
}

impl View for InittabEntry {
    type V = EntryView;

    open spec fn view(&self) -> EntryView {
        EntryView { id: self.id@, action: self.action, process: self.process@ }
    }
}

pub open spec fn entry_views(v: Seq<InittabEntry>) -> Seq<EntryView> {
    v.map_values(|e: InittabEntry| e@)
}

/// What is wrong with a line that is skipped.
pub enum LineProblem {
    /// Fewer than three `:`-separated fields (line number from 1).
    Malformed(usize),
    /// An action name that is not known (line number from 1, the name).
    UnknownAction(usize, String),
}

pub enum ProblemView {
    Malformed(nat),
    UnknownAction(nat, Seq<char>),
}

impl View for LineProblem {
    type V = ProblemView;

    open spec fn view(&self) -> ProblemView {
        match self {
            LineProblem::Malformed(n) => ProblemView::Malformed(*n as nat),
            LineProblem::UnknownAction(n, s) => ProblemView::UnknownAction(*n as nat, s@),
        }
    }
}

pub open spec fn problem_views(v: Seq<LineProblem>) -> Seq<ProblemView> {
    v.map_values(|e: LineProblem| e@)
}

/// The action named by `s`.
pub open spec fn action_of(s: Seq<char>) -> Option<Action> {
    if s == "sysinit"@ {
        Some(Action::Sysinit)
    } else if s == "wait"@ {
        Some(Action::Wait)
    } else if s == "once"@ {
        Some(Action::Once)
    } else if s == "respawn"@ {
        Some(Action::Respawn)
    } else if s == "askfirst"@ {
        Some(Action::Askfirst)
    } else if s == "shutdown"@ {
        Some(Action::Shutdown)
    } else if s == "restart"@ {
        Some(Action::Restart)
    } else if s == "ctrlaltdel"@ {
        Some(Action::Ctrlaltdel)
    } else {
        None
    }
}

fn action_of_exec(s: &[char]) -> (r: Option<Action>)
    ensures
        r == action_of(s@),
{
    if eq_lit(s, "sysinit") {
        Some(Action::Sysinit)
    } else if eq_lit(s, "wait") {
        Some(Action::Wait)
    } else if eq_lit(s, "once") {
        Some(Action::Once)
    } else if eq_lit(s, "respawn") {
        Some(Action::Respawn)
    } else if eq_lit(s, "askfirst") {
        Some(Action::Askfirst)
    } else if eq_lit(s, "shutdown") {
        Some(Action::Shutdown)
    } else if eq_lit(s, "restart") {
        Some(Action::Restart)
    } else if eq_lit(s, "ctrlaltdel") {
        Some(Action::Ctrlaltdel)
    } else {
        None
    }
}

/// What one line (numbered `n` from 1) holds: nothing (blank or comment),
/// an entry, or a problem. Lines are `id:runlevels:action:process` (the
/// runlevels are ignored) or `id:action:process`.
pub enum LineResult {
    Skip,
    Entry(EntryView),
    Problem(ProblemView),
}

pub open spec fn line_spec(line: Seq<char>, n: nat) -> LineResult {
    let l = trim(line);
    if l.len() == 0 || starts_with(l, "#"@) {
        LineResult::Skip
    } else {
        let parts = splitn(l, 4, ':');
        if parts.len() != 4 && parts.len() != 3 {
            LineResult::Problem(ProblemView::Malformed(n))
        } else {
            let (id, act, process) = if parts.len() == 4 {
                (parts[0], parts[2], parts[3])
            } else {
                (parts[0], parts[1], parts[2])
            };
            match action_of(act) {
                Some(a) => LineResult::Entry(EntryView { id, action: a, process }),
                None => LineResult::Problem(ProblemView::UnknownAction(n, act)),
            }
        }
    }
}

/// The entries and problems of `ls[i..]`, lines numbered from `i + 1`.
pub open spec fn parse_lines(ls: Seq<Seq<char>>, i: int) -> (Seq<EntryView>, Seq<ProblemView>)
    decreases ls.len() - i,
{
    if i < 0 || i >= ls.len() {
        (seq![], seq![])
    } else {
        let (e, p) = parse_lines(ls, i + 1);
        match line_spec(ls[i], (i + 1) as nat) {
            LineResult::Skip => (e, p),
            LineResult::Entry(x) => (seq![x] + e, p),
            LineResult::Problem(x) => (e, seq![x] + p),
        }
    }
}

/// The entries of an inittab text, with the skipped lines' problems; the
/// text is refused (`Err`) when it holds no entry.
pub open spec fn inittab_spec(content: Seq<char>) -> (Seq<EntryView>, Seq<ProblemView>) {
    parse_lines(lines(content), 0)
}

/// Parses inittab text. `Ok` holds the entries, in order, when there is at
/// least one; every line that was skipped for a problem is listed too, in
/// order.
pub fn parse_inittab(content: &str) -> (r: (Result<Vec<InittabEntry>, String>, Vec<LineProblem>))
    ensures
        ({
            let (es, ps) = inittab_spec(content@);
            &&& problem_views(r.1@) == ps
            &&& match r.0 {
                Ok(v) => entry_views(v@) == es && es.len() > 0,
                Err(m) => es.len() == 0 && m@ == "no valid entries found"@,
            }
        }),
{
    let c = chars_of(content);
    let ls = lines_exec(c.as_slice());
    let ghost lv = vviews(ls@);
    let mut entries: Vec<InittabEntry> = Vec::new();
    let mut problems: Vec<LineProblem> = Vec::new();
    let mut i: usize = 0;
    assert(entry_views(entries@) =~= Seq::<EntryView>::empty());
    assert(problem_views(problems@) =~= Seq::<ProblemView>::empty());
    while i < ls.len()
        invariant
            i <= ls@.len(),
            lv == vviews(ls@),
            lv == lines(content@),
            ({
                let (e, p) = parse_lines(lv, i as int);
                let (e0, p0) = parse_lines(lv, 0);
                entry_views(entries@) + e == e0 && problem_views(problems@) + p == p0
            }),
        decreases ls@.len() - i,
    {
        let ghost eb = entry_views(entries@);
        let ghost pb = problem_views(problems@);
        assert(lv[i as int] == ls@[i as int]@);
        let l = trim_chars(ls[i].as_slice());
        if l.len() == 0 || starts_with_lit(l.as_slice(), "#") {
        } else {
            let parts = splitn_exec(l.as_slice(), 4, ':');
            let ghost pv = vviews(parts@);
            if parts.len() != 4 && parts.len() != 3 {
                problems.push(LineProblem::Malformed(i + 1));
                assert(problem_views(problems@) =~= pb.push(ProblemView::Malformed((i + 1) as nat)));
            } else {
                let (a, b, cc) = if parts.len() == 4 {
                    (0usize, 2usize, 3usize)
                } else {
                    (0usize, 1usize, 2usize)
                };
                assert(parts@[a as int]@ == pv[a as int] && parts@[b as int]@ == pv[b as int]
                    && parts@[cc as int]@ == pv[cc as int]);
                match action_of_exec(parts[b].as_slice()) {
                    Some(act) => {
                        let e = InittabEntry {
                            id: string_of(parts[a].as_slice()),
                            action: act,
                            process: string_of(parts[cc].as_slice()),
                        };
                        let ghost ev = e@;
                        entries.push(e);
                        assert(entry_views(entries@) =~= eb.push(ev));
                    },
                    None => {
                        let p = LineProblem::UnknownAction(i + 1, string_of(parts[b].as_slice()));
                        let ghost pvv = p@;
                        problems.push(p);
                        assert(problem_views(problems@) =~= pb.push(pvv));
                    },
                }
            }
        }
        proof {
            let (e1, p1) = parse_lines(lv, i + 1);
            assert(parse_lines(lv, i as int) == match line_spec(lv[i as int], (i + 1) as nat) {
                LineResult::Skip => (e1, p1),
                LineResult::Entry(x) => (seq![x] + e1, p1),
                LineResult::Problem(x) => (e1, seq![x] + p1),
            });
            assert(entry_views(entries@) + e1 =~= eb + parse_lines(lv, i as int).0);
            assert(problem_views(problems@) + p1 =~= pb + parse_lines(lv, i as int).1);
        }
        i = i + 1;
    }
    proof {
        let (e, p) = parse_lines(lv, i as int);
        assert(e =~= Seq::<EntryView>::empty());
        assert(p =~= Seq::<ProblemView>::empty());
        assert(entry_views(entries@) =~= parse_lines(lv, 0).0);
        assert(problem_views(problems@) =~= parse_lines(lv, 0).1);
    }
    if entries.len() == 0 {
        return (Err(to_string("no valid entries found")), problems);
    }
    (Ok(entries), problems)
}

/// The configuration used when /etc/inittab cannot be used.
pub fn default_inittab() -> (r: Vec<InittabEntry>)
    ensures
        entry_views(r@) == seq![
            EntryView { id: "rc"@, action: Action::Sysinit, process: "/etc/init.d/rcS"@ },
            EntryView { id: "tty1"@, action: Action::Askfirst, process: "/bin/sh"@ },
        ],
{
    let mut r: Vec<InittabEntry> = Vec::new();
    r.push(
        InittabEntry {
            id: to_string("rc"),
            action: Action::Sysinit,
            process: to_string("/etc/init.d/rcS"),
        },
    );
    r.push(
        InittabEntry { id: to_string("tty1"), action: Action::Askfirst, process: to_string("/bin/sh") },
    );
    assert(entry_views(r@) =~= seq![
        EntryView { id: "rc"@, action: Action::Sysinit, process: "/etc/init.d/rcS"@ },
        EntryView { id: "tty1"@, action: Action::Askfirst, process: "/bin/sh"@ },
    ]);
    r
}

/// The inittab path: the first argument that starts with `--inittab=`,
/// with every leading `--inittab=` removed, or /etc/inittab.
pub fn inittab_path(args: &[String]) -> (r: String)
    ensures
        r@ == match super::option_value_spec(views(args@), "--inittab="@) {
            Some(v) => v,
            None => "/etc/inittab"@,
        },
{
    match super::option_value(args, "--inittab=") {
        Some(v) => v,
        None => to_string("/etc/inittab"),
    }
}

/// One step of bringing the system up.
pub enum BootStep {
    /// Run the entry's process and wait for it.
    RunWait(usize),
    /// Start the entry's process and carry on.
    Spawn(usize),
    /// Start the entry's process (asking first for `askfirst`) and start it
    /// again whenever it exits.
    Respawn(usize),
}

pub enum StepView {
    RunWait(nat),
    Spawn(nat),
    Respawn(nat),
}

impl View for BootStep {
    type V = StepView;

    open spec fn view(&self) -> StepView {
        match self {
            BootStep::RunWait(i) => StepView::RunWait(*i as nat),
            BootStep::Spawn(i) => StepView::Spawn(*i as nat),
            BootStep::Respawn(i) => StepView::Respawn(*i as nat),
        }
    }
}

/// The indices of the entries with an action `pred` accepts, as steps.
pub open spec fn steps_where(es: Seq<Action>, n: int, pred: spec_fn(Action) -> bool, mk: spec_fn(nat) -> StepView) -> Seq<StepView>
    decreases n,
{
    if n <= 0 || n > es.len() {
        seq![]
    } else {
        let rest = steps_where(es, n - 1, pred, mk);
        if pred(es[n - 1]) {
            rest.push(mk((n - 1) as nat))
        } else {
            rest
        }
    }
}

/// The boot order: every `sysinit` entry run in turn, then every `wait`
/// entry, then every `once` entry started, then every `respawn` and
/// `askfirst` entry started and kept running; each group in file order.
pub open spec fn boot_spec(es: Seq<Action>) -> Seq<StepView> {
    steps_where(es, es.len() as int, |a: Action| a == Action::Sysinit, |i: nat| StepView::RunWait(i))
        + steps_where(es, es.len() as int, |a: Action| a == Action::Wait, |i: nat| StepView::RunWait(i))
        + steps_where(es, es.len() as int, |a: Action| a == Action::Once, |i: nat| StepView::Spawn(i))
        + steps_where(
        es,
        es.len() as int,
        |a: Action| a == Action::Respawn || a == Action::Askfirst,
        |i: nat| StepView::Respawn(i),
    )
}

pub open spec fn actions_of(v: Seq<InittabEntry>) -> Seq<Action> {
    v.map_values(|e: InittabEntry| e.action)
}

fn push_steps(
    out: &mut Vec<BootStep>,
    entries: &[InittabEntry],
    kind: u8,
    Ghost(pred): Ghost<spec_fn(Action) -> bool>,
    Ghost(mk): Ghost<spec_fn(nat) -> StepView>,
)
    requires
        kind < 4,
        kind == 0 ==> pred == (|a: Action| a == Action::Sysinit) && mk == (|i: nat| StepView::RunWait(i)),
        kind == 1 ==> pred == (|a: Action| a == Action::Wait) && mk == (|i: nat| StepView::RunWait(i)),
        kind == 2 ==> pred == (|a: Action| a == Action::Once) && mk == (|i: nat| StepView::Spawn(i)),
        kind == 3 ==> pred == (|a: Action| a == Action::Respawn || a == Action::Askfirst) && mk == (|
            i: nat,
        | StepView::Respawn(i)),
    ensures
        final(out)@.map_values(|s: BootStep| s@) == old(out)@.map_values(|s: BootStep| s@)
            + steps_where(actions_of(entries@), entries@.len() as int, pred, mk),
{
    let ghost es = actions_of(entries@);
    let ghost base = out@.map_values(|s: BootStep| s@);
    let mut i: usize = 0;
    assert(steps_where(es, 0, pred, mk) =~= Seq::<StepView>::empty());
    assert(out@.map_values(|s: BootStep| s@) =~= base + steps_where(es, 0, pred, mk));
    while i < entries.len()
        invariant
            i <= entries@.len(),
            es == actions_of(entries@),
            kind < 4,
            kind == 0 ==> pred == (|a: Action| a == Action::Sysinit) && mk == (|i: nat| StepView::RunWait(i)),
            kind == 1 ==> pred == (|a: Action| a == Action::Wait) && mk == (|i: nat| StepView::RunWait(i)),
            kind == 2 ==> pred == (|a: Action| a == Action::Once) && mk == (|i: nat| StepView::Spawn(i)),
            kind == 3 ==> pred == (|a: Action| a == Action::Respawn || a == Action::Askfirst) && mk
                == (|i: nat| StepView::Respawn(i)),
            out@.map_values(|s: BootStep| s@) == base + steps_where(es, i as int, pred, mk),
        decreases entries@.len() - i,
    {
        let a = entries[i].action;
        assert(es[i as int] == a);
        let before = Ghost(out@.map_values(|s: BootStep| s@));
        let hit = match kind {
            0 => a == Action::Sysinit,
            1 => a == Action::Wait,
            2 => a == Action::Once,
            _ => a == Action::Respawn || a == Action::Askfirst,
        };
        assert(hit == pred(a));
        if hit {
            let s = match kind {
                0 | 1 => BootStep::RunWait(i),
                2 => BootStep::Spawn(i),
                _ => BootStep::Respawn(i),
            };
            assert(s@ == mk(i as nat));
            out.push(s);
            assert(out@.map_values(|s: BootStep| s@) =~= before@.push(mk(i as nat)));
        }
        assert(out@.map_values(|s: BootStep| s@) =~= base + steps_where(es, i + 1, pred, mk));
        i = i + 1;
    }
}

/// Decides the boot order for the entries (see `boot_spec`).
pub fn boot_plan(entries: &[InittabEntry]) -> (r: Vec<BootStep>)
    ensures
        r@.map_values(|s: BootStep| s@) == boot_spec(actions_of(entries@)),
{
    let mut out: Vec<BootStep> = Vec::new();
    assert(out@.map_values(|s: BootStep| s@) =~= Seq::<StepView>::empty());
    push_steps(&mut out, entries, 0, Ghost(|a: Action| a == Action::Sysinit), Ghost(|i: nat| StepView::RunWait(i)));
    push_steps(&mut out, entries, 1, Ghost(|a: Action| a == Action::Wait), Ghost(|i: nat| StepView::RunWait(i)));
    push_steps(&mut out, entries, 2, Ghost(|a: Action| a == Action::Once), Ghost(|i: nat| StepView::Spawn(i)));
    push_steps(
        &mut out,
        entries,
        3,
        Ghost(|a: Action| a == Action::Respawn || a == Action::Askfirst),
        Ghost(|i: nat| StepView::Respawn(i)),
    );
    assert(out@.map_values(|s: BootStep| s@) =~= boot_spec(actions_of(entries@)));
    out
}

/// When a respawned process exits: the restart count goes up when the
/// last start was under 5 seconds ago, else back to 0; past 5 the start is
/// delayed 5 seconds and the count starts again from 0. Returns the new
/// count and the delay in seconds.
pub open spec fn respawn_spec(count: u32, elapsed_secs: u64) -> (u32, u64) {
    let c = if elapsed_secs < 5 {
        count + 1
    } else {
        0
    };
    if c > 5 {
        (0, 5)
    } else {
        (c as u32, 0)
    }
}

/// Decides the throttling of a respawn (see `respawn_spec`).
pub fn respawn_delay(count: u32, elapsed_secs: u64) -> (r: (u32, u64))
    ensures
        r == respawn_spec(count, elapsed_secs),
{
    if elapsed_secs >= 5 {
        (0, 0)
    } else if count >= 5 {
        (0, 5)
    } else {
        (count + 1, 0)
    }
}

/// The whole seconds from `started` to `now` (nanoseconds of one
/// monotonic clock), 0 where `now` comes first.
pub open spec fn elapsed_secs(started: u64, now: u64) -> u64 {
    if now >= started {
        ((now - started) / 1_000_000_000) as u64
    } else {
        0
    }
}

/// When the process `pid` exits at time `now`: where it is a respawned
/// process init keeps, its record's count is throttled by the time since
/// its last start (see `respawn_spec`) and the record, its entry and the
/// delay before the entry starts again are returned; any other process is
/// ignored.
pub fn child_exited(t: &mut Vec<Watched>, pid: i32, now: u64) -> (r: Option<(usize, usize, u64)>)
    ensures
        match pid_index(watched_views(old(t)@), pid, 0) {
            None => r is None && final(t)@ == old(t)@,
            Some(k) => {
                let w = watched_views(old(t)@)[k];
                let (c, d) = respawn_spec(w.count, elapsed_secs(w.started, now));
                &&& r matches Some((a, e, x)) && a == k && e == w.entry && x == d
                &&& watched_views(final(t)@) == watched_views(old(t)@).update(k, WatchedView { count: c, ..w })
            },
        },
{
    match owner(t.as_slice(), pid) {
        None => None,
        Some(k) => {
            proof {
                lemma_pid_index(watched_views(t@), pid, 0);
            }
            let ghost w = watched_views(t@)[k as int];
            assert(w == t@[k as int]@);
            let entry = t[k].entry;
            let started = t[k].started;
            let secs = if now >= started {
                (now - started) / 1_000_000_000
            } else {
                0
            };
            let (c, d) = respawn_delay(t[k].count, secs);
            set_count(t, k, c);
            Some((k, entry, d))
        },
    }
}

/// What `init` does when it is not process 1.
pub enum Telinit {
    /// No argument: print the usage, status 1.
    Usage,
    /// `0`: send SIGUSR1 to process 1 (halt).
    Halt,
    /// `6`: send SIGUSR2 to process 1 (reboot).
    Reboot,
    /// `q` or `Q`: send SIGHUP to process 1 (re-read inittab).
    Reload,
    /// Anything else: status 1.
    Unknown(String),
}

/// Decides what `init args...` does when not process 1.
pub fn telinit(args: &[String]) -> (r: Telinit)
    ensures
        args@.len() == 0 ==> r is Usage,
        args@.len() > 0 ==> {
            let a = args@[0]@;
            if a == "0"@ {
                r is Halt
            } else if a == "6"@ {
                r is Reboot
            } else if a == "q"@ || a == "Q"@ {
                r is Reload
            } else {
                r matches Telinit::Unknown(s) && s@ == a
            }
        },
{
    if args.len() == 0 {
        return Telinit::Usage;
    }
    let a = chars_of(args[0].as_str());
    if eq_lit(a.as_slice(), "0") {
        Telinit::Halt
    } else if eq_lit(a.as_slice(), "6") {
        Telinit::Reboot
    } else if eq_lit(a.as_slice(), "q") || eq_lit(a.as_slice(), "Q") {
        Telinit::Reload
    } else {
        Telinit::Unknown(args[0].clone())
    }
}

} // verus!
