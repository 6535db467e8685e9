//! ipcrm: the removals an invocation asks for, the identifiers listed in
//! `/proc/sysvipc/*`, and the exit status.
use vstd::prelude::*;
use crate::num::{parse_i32_exec, parse_signed};
use crate::text::{
    chars_of, chars_of_all, eq_lit, lines, lines_exec, slice_chars, starts_with, starts_with_lit,
    skip_n, string_of, views, vviews, words, words_exec,
};

verus! {

/// The kind of System V IPC resource.
#[derive(PartialEq, Eq, Structural, Clone, Copy)]
pub enum IpcKind {
    Shm,
    Msg,
    Sem,
}

/// One thing an invocation asks for, in order.
pub enum IpcStep {
    /// Remove the resource with this identifier (`-m`, `-q`, `-s`).
    RemoveId(IpcKind, i32),
    /// Remove the resource with this key (`-M`, `-Q`, `-S`).
    RemoveKey(IpcKind, i32),
    /// Remove every resource of the kinds set (`--all=TYPE`).
    RemoveAll { shm: bool, msg: bool, sem: bool },
    /// `--all=` with a type that names no kind: reported, and the status
    /// becomes a failure.
    BadAllType(String),
    /// Print the usage and succeed; nothing after it is read.
    Help,
    /// An unknown word: reported, and ipcrm fails; nothing after it is read.
    Unknown(String),
}

pub enum StepView {
    RemoveId(IpcKind, i32),
    RemoveKey(IpcKind, i32),
    RemoveAll { shm: bool, msg: bool, sem: bool },
    BadAllType(Seq<char>),
    Help,
    Unknown(Seq<char>),
}

impl View for IpcStep {
    type V = StepView;

    open spec fn view(&self) -> StepView {
        match self {
            IpcStep::RemoveId(k, i) => StepView::RemoveId(*k, *i),
            IpcStep::RemoveKey(k, i) => StepView::RemoveKey(*k, *i),
            IpcStep::RemoveAll { shm, msg, sem } => StepView::RemoveAll {
                shm: *shm,
                msg: *msg,
                sem: *sem,
            },
            IpcStep::BadAllType(t) => StepView::BadAllType(t@),
            IpcStep::Help => StepView::Help,
            IpcStep::Unknown(w) => StepView::Unknown(w@),
        }
    }
}

pub open spec fn step_views(s: Seq<IpcStep>) -> Seq<StepView> {
    s.map_values(|x: IpcStep| x@)
}

/// A number as `str::parse::<i32>` reads it, or `d` where it is not one.
pub open spec fn i32_or(s: Seq<char>, d: i32) -> i32 {
    match parse_signed(s, 10, i32::MIN as int, i32::MAX as int) {
        Some(v) => v as i32,
        None => d,
    }
}

/// The removal that a value-taking word asks for: `-m`/`-q`/`-s` take an
/// identifier (-1 where it is not a number), `-M`/`-Q`/`-S` a key (0 where
/// it is not a number).
pub open spec fn value_step(a: Seq<char>, v: Seq<char>) -> Option<StepView> {
    if a == "-m"@ {
        Some(StepView::RemoveId(IpcKind::Shm, i32_or(v, -1i32)))
    } else if a == "-q"@ {
        Some(StepView::RemoveId(IpcKind::Msg, i32_or(v, -1i32)))
    } else if a == "-s"@ {
        Some(StepView::RemoveId(IpcKind::Sem, i32_or(v, -1i32)))
    } else if a == "-M"@ {
        Some(StepView::RemoveKey(IpcKind::Shm, i32_or(v, 0)))
    } else if a == "-Q"@ {
        Some(StepView::RemoveKey(IpcKind::Msg, i32_or(v, 0)))
    } else if a == "-S"@ {
        Some(StepView::RemoveKey(IpcKind::Sem, i32_or(v, 0)))
    } else {
        None
    }
}

pub open spec fn takes_value(a: Seq<char>) -> bool {
    a == "-m"@ || a == "-q"@ || a == "-s"@ || a == "-M"@ || a == "-Q"@ || a == "-S"@
}

/// `--all=TYPE`: the kinds `TYPE` names (`shm`, `msg`, `sem`, or `all`).
pub open spec fn all_step(t: Seq<char>) -> StepView {
    let shm = t == "shm"@ || t == "all"@;
    let msg = t == "msg"@ || t == "all"@;
    let sem = t == "sem"@ || t == "all"@;
    if !shm && !msg && !sem {
        StepView::BadAllType(t)
    } else {
        StepView::RemoveAll { shm, msg, sem }
    }
}

/// The steps that the words from `i` on ask for.
pub open spec fn steps_spec(args: Seq<Seq<char>>, i: int) -> Seq<StepView>
    decreases args.len() - i,
{
    if i < 0 || i >= args.len() {
        seq![]
    } else {
        let a = args[i];
        if takes_value(a) {
            if i + 1 < args.len() {
                seq![value_step(a, args[i + 1])->0] + steps_spec(args, i + 2)
            } else {
                seq![]
            }
        } else if starts_with(a, "--all="@) {
            seq![all_step(a.skip(6))] + steps_spec(args, i + 1)
        } else if a == "--all"@ {
            seq![all_step("all"@)] + steps_spec(args, i + 1)
        } else if a == "-h"@ || a == "--help"@ {
            seq![StepView::Help]
        } else {
            seq![StepView::Unknown(a)]
        }
    }
}

fn value_step_exec(a: &[char], v: &[char]) -> (r: IpcStep)
    requires
        takes_value(a@),
    ensures
        value_step(a@, v@) == Some(r@),
{
    let n = parse_i32_exec(v);
    let id = match n {
        Some(x) => x,
        None => -1,
    };
    let key = match n {
        Some(x) => x,
        None => 0,
    };
    if eq_lit(a, "-m") {
        IpcStep::RemoveId(IpcKind::Shm, id)
    } else if eq_lit(a, "-q") {
        IpcStep::RemoveId(IpcKind::Msg, id)
    } else if eq_lit(a, "-s") {
        IpcStep::RemoveId(IpcKind::Sem, id)
    } else if eq_lit(a, "-M") {
        IpcStep::RemoveKey(IpcKind::Shm, key)
    } else if eq_lit(a, "-Q") {
        IpcStep::RemoveKey(IpcKind::Msg, key)
    } else {
        IpcStep::RemoveKey(IpcKind::Sem, key)
    }
}

fn all_step_exec(t: &[char]) -> (r: IpcStep)
    ensures
        r@ == all_step(t@),
{
    let all = eq_lit(t, "all");
    let shm = eq_lit(t, "shm") || all;
    let msg = eq_lit(t, "msg") || all;
    let sem = eq_lit(t, "sem") || all;
    if !shm && !msg && !sem {
        IpcStep::BadAllType(string_of(t))
    } else {
        IpcStep::RemoveAll { shm, msg, sem }
    }
}

fn push_step(v: &mut Vec<IpcStep>, s: IpcStep)
    ensures
        step_views(final(v)@) == step_views(old(v)@).push(s@),
{
    let ghost sv = s@;
    v.push(s);
    assert(step_views(v@) =~= step_views(old(v)@).push(sv));
}

/// The steps an invocation asks for; `None` where it has no word at all
/// (ipcrm prints its usage and fails).
pub fn plan(args: &[String]) -> (r: Option<Vec<IpcStep>>)
    ensures
        match r {
            None => args@.len() == 0,
            Some(s) => args@.len() > 0 && step_views(s@) == steps_spec(views(args@), 0),
        },
{
    if args.len() == 0 {
        return None;
    }
    let ghost av = views(args@);
    let cs = chars_of_all(args);
    let n = args.len();
    let mut out: Vec<IpcStep> = Vec::new();
    let mut i: usize = 0;
    assert(step_views(out@) =~= Seq::<StepView>::empty());
    while i < n
        invariant
            n == args@.len(),
            cs@.len() == n,
            av == views(args@),
            forall|k: int| 0 <= k < n ==> #[trigger] cs@[k]@ == args@[k]@,
            i <= n,
            step_views(out@) + steps_spec(av, i as int) == steps_spec(av, 0),
        decreases n - i,
    {
        let a = cs[i].as_slice();
        assert(av[i as int] == a@);
        let ghost before = step_views(out@);
        if eq_lit(a, "-m") || eq_lit(a, "-q") || eq_lit(a, "-s") || eq_lit(a, "-M") || eq_lit(
            a,
            "-Q",
        ) || eq_lit(a, "-S") {
            assert(takes_value(a@));
            if i + 1 < n {
                assert(av[i + 1] == cs@[i + 1]@);
                push_step(&mut out, value_step_exec(a, cs[i + 1].as_slice()));
                assert(step_views(out@) + steps_spec(av, i + 2) =~= before + steps_spec(
                    av,
                    i as int,
                ));
                i = i + 2;
            } else {
                assert(step_views(out@) =~= step_views(out@) + steps_spec(av, i as int));
                return Some(out);
            }
        } else if starts_with_lit(a, "--all=") {
            proof {
                reveal_strlit("--all=");
            }
            let t = slice_chars(a, 6, a.len());
            assert(t@ =~= a@.skip(6));
            push_step(&mut out, all_step_exec(t.as_slice()));
            assert(step_views(out@) + steps_spec(av, i + 1) =~= before + steps_spec(
                av,
                i as int,
            ));
            i = i + 1;
        } else if eq_lit(a, "--all") {
            let t = chars_of("all");
            push_step(&mut out, all_step_exec(t.as_slice()));
            assert(step_views(out@) + steps_spec(av, i + 1) =~= before + steps_spec(
                av,
                i as int,
            ));
            i = i + 1;
        } else if eq_lit(a, "-h") || eq_lit(a, "--help") {
            push_step(&mut out, IpcStep::Help);
            assert(step_views(out@) =~= before + steps_spec(av, i as int));
            return Some(out);
        } else {
            push_step(&mut out, IpcStep::Unknown(string_of(a)));
            assert(step_views(out@) =~= before + steps_spec(av, i as int));
            return Some(out);
        }
    }
    assert(step_views(out@) =~= step_views(out@) + steps_spec(av, i as int));
    Some(out)
}

/// The exit status after the steps ran, `ok[k]` telling whether step `k`
/// succeeded: 0 after help, 1 after an unknown word, else 1 where a step
/// failed or named no kind, and 0 otherwise.
pub open spec fn exit_spec(steps: Seq<StepView>, ok: Seq<bool>) -> i32 {
    if steps.len() > 0 && steps.last() is Help {
        0
    } else if steps.len() > 0 && steps.last() is Unknown {
        1
    } else if exists|k: int|
        0 <= k < steps.len() && (!ok[k] || #[trigger] steps[k] is BadAllType) {
        1
    } else {
        0
    }
}

/// The exit status (see `exit_spec`).
pub fn exit_status(steps: &[IpcStep], ok: &[bool]) -> (r: i32)
    requires
        ok@.len() == steps@.len(),
    ensures
        r == exit_spec(step_views(steps@), ok@),
{
    let ghost sv = step_views(steps@);
    let n = steps.len();
    assert(sv.len() == n);
    if n > 0 {
        assert(sv.last() == steps@[n - 1]@);
        match &steps[n - 1] {
            IpcStep::Help => {
                return 0;
            },
            IpcStep::Unknown(_) => {
                return 1;
            },
            _ => {},
        }
    }
    let mut k: usize = 0;
    while k < n
        invariant
            n == steps@.len(),
            ok@.len() == n,
            sv == step_views(steps@),
            n > 0 ==> !(sv.last() is Help) && !(sv.last() is Unknown),
            k <= n,
            forall|j: int| 0 <= j < k ==> ok@[j] && !(#[trigger] sv[j] is BadAllType),
        decreases n - k,
    {
        assert(sv[k as int] == steps@[k as int]@);
        let bad = match &steps[k] {
            IpcStep::BadAllType(_) => true,
            _ => false,
        };
        if !ok[k] || bad {
            assert(!ok@[k as int] || sv[k as int] is BadAllType);
            return 1;
        }
        k = k + 1;
    }
    assert(!exists|j: int| 0 <= j < sv.len() && (!ok@[j] || #[trigger] sv[j] is BadAllType));
    0
}

/// The identifiers listed in the text of a `/proc/sysvipc/*` file: the
/// second column of each line after the header, where it is a number.
pub open spec fn proc_ids_spec(ls: Seq<Seq<char>>) -> Seq<i32>
    decreases ls.len(),
{
    if ls.len() == 0 {
        seq![]
    } else {
        let w = words(ls.last());
        let rest = proc_ids_spec(ls.drop_last());
        if w.len() >= 2 && parse_signed(w[1], 10, i32::MIN as int, i32::MAX as int) is Some {
            rest.push(parse_signed(w[1], 10, i32::MIN as int, i32::MAX as int)->0 as i32)
        } else {
            rest
        }
    }
}

/// The identifiers listed in a `/proc/sysvipc/*` file's text.
pub fn proc_ids(content: &str) -> (r: Vec<i32>)
    ensures
        r@ == proc_ids_spec(skip_n(lines(content@), 1)),
{
    let c = chars_of(content);
    let ls = lines_exec(c.as_slice());
    let ghost lv = vviews(ls@);
    let mut r: Vec<i32> = Vec::new();
    if ls.len() == 0 {
        assert(skip_n(lv, 1) =~= Seq::<Seq<char>>::empty());
        return r;
    }
    let ghost body = lv.skip(1);
    let mut i: usize = 1;
    assert(body.take(0) =~= Seq::<Seq<char>>::empty());
    while i < ls.len()
        invariant
            1 <= i <= ls@.len(),
            lv == vviews(ls@),
            lv == lines(content@),
            body == lv.skip(1),
            r@ == proc_ids_spec(body.take(i - 1)),
        decreases ls@.len() - i,
    {
        let w = words_exec(ls[i].as_slice());
        assert(lv.len() == ls@.len());
        assert(lv[i as int] == ls@[i as int]@);
        assert(body.take(i as int).drop_last() =~= body.take(i - 1));
        assert(body.take(i as int).last() == lv[i as int]);
        if w.len() >= 2 {
            assert(vviews(w@)[1] == w@[1]@);
            match parse_i32_exec(w[1].as_slice()) {
                Some(id) => {
                    r.push(id);
                },
                None => {},
            }
        }
        i = i + 1;
    }
    assert(body.take(ls@.len() - 1) =~= body);
    r
}

} // verus!
