//! init: what the three init systems share, the splitting of command
//! lines into words and the choice of program for a script.
use vstd::prelude::*;
use crate::text::{
    chars_of, eq_chars, lines, lines_exec, words, words_exec, starts_with, starts_with_lit, string_of, trim, trim_chars, trim_prefix_all,
    trim_prefix_all_exec, views, vviews,
};

pub mod rustfs_init;
pub mod systemd_compat;
pub mod sysvinit;

verus! {

/// The state of the command-line splitter.
pub struct TokState {
    pub args: Seq<Seq<char>>,
    pub cur: Seq<char>,
    pub single: bool,
    pub double: bool,
    pub escape: bool,
}

pub open spec fn tok_init() -> TokState {
    TokState { args: seq![], cur: seq![], single: false, double: false, escape: false }
}

/// One character of a command line: a backslash outside single quotes
/// takes the next character literally, quotes of one kind toggle outside
/// quotes of the other, spaces and tabs outside quotes end a word, and
/// anything else belongs to the current word.
pub open spec fn tok_step(st: TokState, c: char) -> TokState {
    if st.escape {
        TokState { cur: st.cur.push(c), escape: false, ..st }
    } else if c == '\\' && !st.single {
        TokState { escape: true, ..st }
    } else if c == '\'' && !st.double {
        TokState { single: !st.single, ..st }
    } else if c == '"' && !st.single {
        TokState { double: !st.double, ..st }
    } else if (c == ' ' || c == '\t') && !st.single && !st.double {
        if st.cur.len() > 0 {
            TokState { args: st.args.push(st.cur), cur: seq![], ..st }
        } else {
            st
        }
    } else {
        TokState { cur: st.cur.push(c), ..st }
    }
}

pub open spec fn tok_run(s: Seq<char>) -> TokState
    decreases s.len(),
{
    if s.len() == 0 {
        tok_init()
    } else {
        tok_step(tok_run(s.drop_last()), s.last())
    }
}

/// The words of a command line (no shell is involved: no variables, globs
/// or redirections).
pub open spec fn command_words(s: Seq<char>) -> Seq<Seq<char>> {
    let st = tok_run(s);
    if st.cur.len() > 0 {
        st.args.push(st.cur)
    } else {
        st.args
    }
}

/// Splits a command string into program and arguments.
pub fn parse_command(cmd: &str) -> (r: Vec<String>)
    ensures
        views(r@) == command_words(cmd@),
{
    let c = chars_of(cmd);
    let w = command_words_exec(c.as_slice());
    let r = crate::text::strings_of(&w);
    assert(views(r@) =~= vviews(w@));
    r
}

/// `command_words(s)`.
pub fn command_words_exec(s: &[char]) -> (r: Vec<Vec<char>>)
    ensures
        vviews(r@) == command_words(s@),
{
    let mut args: Vec<Vec<char>> = Vec::new();
    let mut cur: Vec<char> = Vec::new();
    let mut single = false;
    let mut double = false;
    let mut escape = false;
    let mut i: usize = 0;
    assert(s@.take(0) =~= Seq::<char>::empty());
    assert(vviews(args@) =~= Seq::<Seq<char>>::empty());
    while i < s.len()
        invariant
            i <= s@.len(),
            tok_run(s@.take(i as int)) == (TokState {
                args: vviews(args@),
                cur: cur@,
                single,
                double,
                escape,
            }),
        decreases s@.len() - i,
    {
        let ch = s[i];
        assert(s@.take(i + 1).drop_last() =~= s@.take(i as int));
        assert(s@.take(i + 1).last() == ch);
        if escape {
            cur.push(ch);
            escape = false;
        } else if ch == '\\' && !single {
            escape = true;
        } else if ch == '\'' && !double {
            single = !single;
        } else if ch == '"' && !single {
            double = !double;
        } else if (ch == ' ' || ch == '\t') && !single && !double {
            if cur.len() > 0 {
                let ghost before = vviews(args@);
                let word = cur;
                cur = Vec::new();
                let ghost wv = word@;
                args.push(word);
                assert(vviews(args@) =~= before.push(wv));
                assert(cur@ =~= Seq::<char>::empty());
            }
        } else {
            cur.push(ch);
        }
        i = i + 1;
    }
    assert(s@.take(s@.len() as int) =~= s@);
    if cur.len() > 0 {
        let ghost before = vviews(args@);
        let ghost wv = cur@;
        args.push(cur);
        assert(vviews(args@) =~= before.push(wv));
    }
    args
}

/// What `String::from_utf8_lossy` makes of some bytes.
pub uninterp spec fn utf8_lossy(bytes: Seq<u8>) -> Seq<char>;

/// Trusted: std's `String::from_utf8_lossy`, which decodes UTF-8 and puts
/// U+FFFD for each invalid sequence; its result depends on the bytes alone,
/// and on valid UTF-8 it is the decoded text.
#[verifier::external_body]
fn lossy_text(bytes: &[u8]) -> (s: String)
    ensures
        s@ == utf8_lossy(bytes@),
        vstd::utf8::valid_utf8(bytes@) ==> s@ == vstd::utf8::decode_utf8(bytes@),
{
    String::from_utf8_lossy(bytes).into_owned()
}

/// The interpreter named by a `#!` line, as words.
pub open spec fn interpreter_spec(content: Seq<u8>) -> Option<Seq<Seq<char>>> {
    if content.len() >= 2 && content[0] == 35 && content[1] == 33 {
        match content.index_of_first(10u8) {
            Some(e) => {
                if e >= 2 {
                    let w = command_words(trim(utf8_lossy(content.subrange(2, e))));
                    if w.len() > 0 {
                        Some(w)
                    } else {
                        None
                    }
                } else {
                    None
                }
            },
            None => None,
        }
    } else {
        None
    }
}

/// The interpreter and its arguments from a script's `#!` line: the words
/// between `#!` and the first newline, if the file starts with `#!`, has a
/// newline and the words are not none.
pub fn script_interpreter(content: &[u8]) -> (r: Option<Vec<String>>)
    ensures
        match (r, interpreter_spec(content@)) {
            (Some(a), Some(b)) => views(a@) == b,
            (None, None) => true,
            _ => false,
        },
{
    if !(content.len() >= 2 && content[0] == 35 && content[1] == 33) {
        return None;
    }
    let mut e: usize = 0;
    while e < content.len() && content[e] != 10
        invariant
            e <= content@.len(),
            forall|k: int| 0 <= k < e ==> content@[k] != 10u8,
        decreases content@.len() - e,
    {
        e = e + 1;
    }
    proof {
        content@.index_of_first_ensures(10u8);
    }
    if e == content.len() {
        assert(content@.index_of_first(10u8) is None) by {
            if content@.index_of_first(10u8) is Some {
                let k = content@.index_of_first(10u8)->0;
                assert(content@[k] == 10u8);
            }
        }
        return None;
    }
    assert(content@.index_of_first(10u8) == Some(e as int)) by {
        let f = content@.index_of_first(10u8);
        if f is None {
            assert(content@.contains(10u8)) by {
                assert(content@[e as int] == 10u8);
            }
        } else {
            let k = f->0;
            if k < e {
                assert(content@[k] == 10u8);
            }
        }
    }
    let mut line: Vec<u8> = Vec::new();
    let mut k: usize = 2;
    while k < e
        invariant
            2 <= k <= e < content@.len(),
            line@ == content@.subrange(2, k as int),
        decreases e - k,
    {
        line.push(content[k]);
        k = k + 1;
        assert(line@ =~= content@.subrange(2, k as int));
    }
    let text = lossy_text(line.as_slice());
    let tc = chars_of(text.as_str());
    let t = trim_chars(tc.as_slice());
    let w = command_words_exec(t.as_slice());
    if w.len() == 0 {
        return None;
    }
    let r = crate::text::strings_of(&w);
    assert(views(r@) =~= vviews(w@));
    Some(r)
}

/// The program and arguments for command words whose first word is a
/// script with interpreter words `interp` (or not a script): the script
/// is run by its interpreter, with the interpreter's own arguments first.
pub open spec fn program_spec(args: Seq<Seq<char>>, interp: Option<Seq<Seq<char>>>) -> (Seq<char>, Seq<Seq<char>>) {
    match interp {
        Some(i) => (i[0], i.drop_first() + args),
        None => (args[0], args.drop_first()),
    }
}

/// Chooses the program to execute and its arguments.
pub fn program_and_args(args: &[String], interp: Option<Vec<String>>) -> (r: (String, Vec<String>))
    requires
        args@.len() > 0,
        interp matches Some(i) ==> i@.len() > 0,
    ensures
        ({
            let iv = match interp {
                Some(i) => Some(views(i@)),
                None => None,
            };
            let (p, a) = program_spec(views(args@), iv);
            r.0@ == p && views(r.1@) == a
        }),
{
    match interp {
        Some(i) => {
            let ghost iv = views(i@);
            let mut rest: Vec<String> = Vec::new();
            let mut k: usize = 1;
            assert(iv.drop_first().take(0) =~= Seq::<Seq<char>>::empty());
            while k < i.len()
                invariant
                    1 <= k <= i@.len(),
                    iv == views(i@),
                    views(rest@) == iv.drop_first().take(k - 1),
                decreases i@.len() - k,
            {
                let ghost before = views(rest@);
                rest.push(i[k].clone());
                assert(views(rest@) =~= before.push(i@[k as int]@));
                assert(iv.drop_first().take(k as int) =~= iv.drop_first().take(k - 1).push(iv[k as int]));
                k = k + 1;
            }
            assert(iv.drop_first().take(i@.len() - 1) =~= iv.drop_first());
            let mut j: usize = 0;
            let ghost base = views(rest@);
            while j < args.len()
                invariant
                    j <= args@.len(),
                    views(rest@) == base + views(args@).take(j as int),
                decreases args@.len() - j,
            {
                let ghost before = views(rest@);
                rest.push(args[j].clone());
                assert(views(rest@) =~= before.push(args@[j as int]@));
                assert(views(args@).take(j + 1) =~= views(args@).take(j as int).push(args@[j as int]@));
                j = j + 1;
            }
            assert(views(args@).take(args@.len() as int) =~= views(args@));
            (i[0].clone(), rest)
        },
        None => {
            let mut rest: Vec<String> = Vec::new();
            let mut j: usize = 1;
            let ghost av = views(args@);
            assert(av.drop_first().take(0) =~= Seq::<Seq<char>>::empty());
            while j < args.len()
                invariant
                    1 <= j <= args@.len(),
                    av == views(args@),
                    views(rest@) == av.drop_first().take(j - 1),
                decreases args@.len() - j,
            {
                let ghost before = views(rest@);
                rest.push(args[j].clone());
                assert(views(rest@) =~= before.push(args@[j as int]@));
                assert(av.drop_first().take(j as int) =~= av.drop_first().take(j - 1).push(av[j as int]));
                j = j + 1;
            }
            assert(av.drop_first().take(args@.len() - 1) =~= av.drop_first());
            (args[0].clone(), rest)
        },
    }
}

/// The first argument that starts with `p`, with every leading `p`
/// removed.
pub open spec fn option_value_spec(args: Seq<Seq<char>>, p: Seq<char>) -> Option<Seq<char>>
    decreases args.len(),
{
    if args.len() == 0 {
        None
    } else if starts_with(args[0], p) {
        Some(trim_prefix_all(args[0], p))
    } else {
        option_value_spec(args.drop_first(), p)
    }
}

/// Finds a `--name=value` argument (see `option_value_spec`).
pub fn option_value(args: &[String], p: &str) -> (r: Option<String>)
    ensures
        match (r, option_value_spec(views(args@), p@)) {
            (Some(a), Some(b)) => a@ == b,
            (None, None) => true,
            _ => false,
        },
{
    let ghost sv = views(args@);
    let mut i: usize = 0;
    assert(sv.skip(0) =~= sv);
    while i < args.len()
        invariant
            i <= args@.len(),
            sv == views(args@),
            option_value_spec(sv.skip(i as int), p@) == option_value_spec(sv, p@),
        decreases args@.len() - i,
    {
        let a = chars_of(args[i].as_str());
        assert(sv.skip(i as int)[0] == a@);
        assert(sv.skip(i as int).drop_first() =~= sv.skip(i + 1));
        if starts_with_lit(a.as_slice(), p) {
            let rest = trim_prefix_all_exec(a.as_slice(), p);
            return Some(string_of(rest.as_slice()));
        }
        i = i + 1;
    }
    assert(sv.skip(i as int) =~= Seq::<Seq<char>>::empty());
    None
}


/// A line of the mount table names a mount at `path`: its second word is
/// `path`.
pub open spec fn mounts_line_at(line: Seq<char>, path: Seq<char>) -> bool {
    words(line).len() > 1 && words(line)[1] == path
}

/// Something is mounted at `path`, by the text of `/proc/mounts`: some
/// line of it names a mount there.
pub open spec fn mounted_spec(mounts: Seq<char>, path: Seq<char>) -> bool {
    exists|i: int| 0 <= i < lines(mounts).len() && mounts_line_at(#[trigger] lines(mounts)[i], path)
}

/// Whether the mount table `mounts` shows something mounted at `path`
/// (see `mounted_spec`).
pub fn mounted_at(mounts: &str, path: &str) -> (r: bool)
    ensures
        r == mounted_spec(mounts@, path@),
{
    let ls = lines_exec(chars_of(mounts).as_slice());
    let p = chars_of(path);
    let ghost lv = vviews(ls@);
    let mut i: usize = 0;
    while i < ls.len()
        invariant
            i <= ls@.len(),
            lv == vviews(ls@),
            lv == lines(mounts@),
            p@ == path@,
            forall|j: int| 0 <= j < i ==> !mounts_line_at(#[trigger] lv[j], path@),
        decreases ls@.len() - i,
    {
        assert(lv[i as int] == ls@[i as int]@);
        let w = words_exec(ls[i].as_slice());
        if w.len() > 1 {
            assert(vviews(w@)[1] == w@[1]@);
            if eq_chars(w[1].as_slice(), p.as_slice()) {
                assert(mounts_line_at(lv[i as int], path@));
                return true;
            }
        }
        i = i + 1;
    }
    false
}

/// A pseudo-filesystem that init mounts at boot.
pub struct EssentialMount {
    pub source: String,
    pub target: String,
    pub fstype: String,
    /// Mounted with `nosuid` and `nodev`.
    pub nosuid_nodev: bool,
    /// The mount data (empty for none).
    pub options: String,
}

pub struct MountView {
    pub source: Seq<char>,
    pub target: Seq<char>,
    pub fstype: Seq<char>,
    pub nosuid_nodev: bool,
    pub options: Seq<char>,
}

impl View for EssentialMount {
    type V = MountView;

    open spec fn view(&self) -> MountView {
        MountView {
            source: self.source@,
            target: self.target@,
            fstype: self.fstype@,
            nosuid_nodev: self.nosuid_nodev,
            options: self.options@,
        }
    }
}

pub open spec fn mount_of(source: Seq<char>, target: Seq<char>, fstype: Seq<char>, nosuid_nodev: bool, options: Seq<char>) -> MountView {
    MountView { source, target, fstype, nosuid_nodev, options }
}

/// The pseudo-filesystems mounted at boot, in order: proc, sysfs,
/// devtmpfs, a tmpfs on /run, devpts, a tmpfs on /dev/shm, and under
/// `with_cgroup` the cgroup2 hierarchy.
pub open spec fn essential_spec(with_cgroup: bool) -> Seq<MountView> {
    seq![
        mount_of("proc"@, "/proc"@, "proc"@, false, ""@),
        mount_of("sysfs"@, "/sys"@, "sysfs"@, false, ""@),
        mount_of("devtmpfs"@, "/dev"@, "devtmpfs"@, false, ""@),
        mount_of("tmpfs"@, "/run"@, "tmpfs"@, true, "mode=0755"@),
        mount_of("devpts"@, "/dev/pts"@, "devpts"@, false, ""@),
        mount_of("tmpfs"@, "/dev/shm"@, "tmpfs"@, true, "mode=1777"@),
    ] + if with_cgroup {
        seq![mount_of("cgroup2"@, "/sys/fs/cgroup"@, "cgroup2"@, false, ""@)]
    } else {
        seq![]
    }
}

fn mount_entry(source: &str, target: &str, fstype: &str, nosuid_nodev: bool, options: &str) -> (r: EssentialMount)
    ensures
        r@ == mount_of(source@, target@, fstype@, nosuid_nodev, options@),
{
    EssentialMount {
        source: source.to_owned(),
        target: target.to_owned(),
        fstype: fstype.to_owned(),
        nosuid_nodev,
        options: options.to_owned(),
    }
}

/// The pseudo-filesystems to mount at boot (see `essential_spec`).
pub fn essential_mounts(with_cgroup: bool) -> (r: Vec<EssentialMount>)
    ensures
        r@.map_values(|m: EssentialMount| m@) == essential_spec(with_cgroup),
{
    let mut r: Vec<EssentialMount> = Vec::new();
    r.push(mount_entry("proc", "/proc", "proc", false, ""));
    r.push(mount_entry("sysfs", "/sys", "sysfs", false, ""));
    r.push(mount_entry("devtmpfs", "/dev", "devtmpfs", false, ""));
    r.push(mount_entry("tmpfs", "/run", "tmpfs", true, "mode=0755"));
    r.push(mount_entry("devpts", "/dev/pts", "devpts", false, ""));
    r.push(mount_entry("tmpfs", "/dev/shm", "tmpfs", true, "mode=1777"));
    if with_cgroup {
        r.push(mount_entry("cgroup2", "/sys/fs/cgroup", "cgroup2", false, ""));
    }
    assert(r@.map_values(|m: EssentialMount| m@) =~= essential_spec(with_cgroup));
    r
}


/// Whether a filesystem is to be mounted at `target`, by the mount table
/// as read then (`None` where it could not be read): unless it shows
/// something mounted there.
pub fn needs_mount(mounts: Option<&str>, target: &str) -> (r: bool)
    ensures
        r == !(mounts matches Some(m) && mounted_spec(m@, target@)),
{
    match mounts {
        Some(m) => !mounted_at(m, target),
        None => true,
    }
}

/// The essential mounts still to make by a mount table: those whose
/// target it does not show mounted, in order.
pub open spec fn needed_spec(with_cgroup: bool, mounts: Seq<char>) -> Seq<MountView> {
    essential_spec(with_cgroup).filter(|m: MountView| !mounted_spec(mounts, m.target))
}

/// The essential mounts still to make (see `needed_spec`).
pub fn mounts_needed(with_cgroup: bool, mounts: &str) -> (r: Vec<EssentialMount>)
    ensures
        r@.map_values(|m: EssentialMount| m@) == needed_spec(with_cgroup, mounts@),
{
    let all = essential_mounts(with_cgroup);
    let ghost av = all@.map_values(|m: EssentialMount| m@);
    let ghost pred = |m: MountView| !mounted_spec(mounts@, m.target);
    let mut out: Vec<EssentialMount> = Vec::new();
    let mut i: usize = 0;
    assert(av.take(0) =~= Seq::<MountView>::empty());
    assert(out@.map_values(|m: EssentialMount| m@) =~= Seq::<MountView>::empty());
    while i < all.len()
        invariant
            i <= all@.len(),
            av == all@.map_values(|m: EssentialMount| m@),
            av == essential_spec(with_cgroup),
            pred == (|m: MountView| !mounted_spec(mounts@, m.target)),
            out@.map_values(|m: EssentialMount| m@) == av.take(i as int).filter(pred),
        decreases all@.len() - i,
    {
        assert(av[i as int] == all@[i as int]@);
        proof {
            reveal_with_fuel(Seq::filter, 2);
            assert(av.take(i + 1).drop_last() =~= av.take(i as int));
        }
        let ghost before = out@.map_values(|m: EssentialMount| m@);
        if !mounted_at(mounts, all[i].target.as_str()) {
            let m = mount_entry(
                all[i].source.as_str(),
                all[i].target.as_str(),
                all[i].fstype.as_str(),
                all[i].nosuid_nodev,
                all[i].options.as_str(),
            );
            out.push(m);
            assert(out@.map_values(|m: EssentialMount| m@) =~= before.push(av[i as int]));
        }
        assert(out@.map_values(|m: EssentialMount| m@) =~= av.take(i + 1).filter(pred));
        i = i + 1;
    }
    assert(av.take(all@.len() as int) =~= av);
    out
}

/// Mounting is done once: where the mount table shows every essential
/// target mounted, no mount is left to make.
pub proof fn lemma_mounts_once(with_cgroup: bool, mounts: Seq<char>)
    requires
        forall|k: int|
            0 <= k < essential_spec(with_cgroup).len() ==> mounted_spec(
                mounts,
                #[trigger] essential_spec(with_cgroup)[k].target,
            ),
    ensures
        needed_spec(with_cgroup, mounts).len() == 0,
{
    let es = essential_spec(with_cgroup);
    let pred = |m: MountView| !mounted_spec(mounts, m.target);
    let n = needed_spec(with_cgroup, mounts);
    if n.len() > 0 {
        es.lemma_filter_pred(pred, 0);
        assert(n.contains(n[0]));
        es.lemma_filter_contains_rev(pred, n[0]);
        let k = choose|k: int| 0 <= k < es.len() && es[k] == n[0];
        assert(mounted_spec(mounts, es[k].target));
    }
}

/// A respawned process that init keeps track of, under its entry's id.
pub struct Watched {
    pub id: String,
    /// The index of its inittab entry.
    pub entry: usize,
    pub pid: Option<i32>,
    /// Restarts counted for throttling.
    pub count: u32,
    /// When it was last started, in nanoseconds of a monotonic clock.
    pub started: u64,
}

pub struct WatchedView {
    pub id: Seq<char>,
    pub entry: nat,
    pub pid: Option<i32>,
    pub count: u32,
    pub started: u64,
}

impl View for Watched {
    type V = WatchedView;

    open spec fn view(&self) -> WatchedView {
        WatchedView {
            id: self.id@,
            entry: self.entry as nat,
            pid: self.pid,
            count: self.count,
            started: self.started,
        }
    }
}

pub open spec fn watched_views(t: Seq<Watched>) -> Seq<WatchedView> {
    t.map_values(|x: Watched| x@)
}

/// The first record from `i` on kept under `id`.
pub open spec fn id_index(t: Seq<WatchedView>, id: Seq<char>, i: int) -> Option<int>
    decreases t.len() - i,
{
    if i < 0 || i >= t.len() {
        None
    } else if t[i].id == id {
        Some(i)
    } else {
        id_index(t, id, i + 1)
    }
}

/// The first record from `i` on whose process is `pid`.
pub open spec fn pid_index(t: Seq<WatchedView>, pid: i32, i: int) -> Option<int>
    decreases t.len() - i,
{
    if i < 0 || i >= t.len() {
        None
    } else if t[i].pid == Some(pid) {
        Some(i)
    } else {
        pid_index(t, pid, i + 1)
    }
}

/// Keeping a started process under its entry's id: the record under that
/// id is replaced (one record per id), else a record is added; its count
/// starts at 0.
pub open spec fn track_spec(t: Seq<WatchedView>, id: Seq<char>, entry: nat, pid: Option<i32>, now: u64) -> Seq<WatchedView> {
    let rec = WatchedView { id, entry, pid, count: 0, started: now };
    match id_index(t, id, 0) {
        Some(k) => t.update(k, rec),
        None => t.push(rec),
    }
}

/// Keeps a started process (see `track_spec`).
pub fn track(t: &mut Vec<Watched>, id: &str, entry: usize, pid: Option<i32>, now: u64)
    ensures
        watched_views(final(t)@) == track_spec(watched_views(old(t)@), id@, entry as nat, pid, now),
{
    let ghost tv = watched_views(t@);
    let idc = chars_of(id);
    let rec = Watched { id: crate::text::to_string(id), entry, pid, count: 0, started: now };
    let mut i: usize = 0;
    while i < t.len()
        invariant
            i <= t@.len(),
            tv == watched_views(t@),
            t@ == old(t)@,
            idc@ == id@,
            rec@ == (WatchedView { id: id@, entry: entry as nat, pid, count: 0, started: now }),
            id_index(tv, id@, i as int) == id_index(tv, id@, 0),
        decreases t@.len() - i,
    {
        assert(tv[i as int] == t@[i as int]@);
        if eq_chars(chars_of(t[i].id.as_str()).as_slice(), idc.as_slice()) {
            assert(tv[i as int].id == id@);
            assert(id_index(tv, id@, i as int) == Some(i as int));
            t.set(i, rec);
            assert(watched_views(t@) =~= track_spec(tv, id@, entry as nat, pid, now));
            return;
        }
        i = i + 1;
    }
    t.push(rec);
    assert(watched_views(t@) =~= track_spec(tv, id@, entry as nat, pid, now));
}

/// The record whose process is `pid` (see `pid_index`).
pub fn owner(t: &[Watched], pid: i32) -> (r: Option<usize>)
    ensures
        match pid_index(watched_views(t@), pid, 0) {
            Some(k) => r matches Some(j) && j == k,
            None => r is None,
        },
{
    let ghost tv = watched_views(t@);
    let mut i: usize = 0;
    while i < t.len()
        invariant
            i <= t@.len(),
            tv == watched_views(t@),
            pid_index(tv, pid, i as int) == pid_index(tv, pid, 0),
        decreases t@.len() - i,
    {
        assert(tv[i as int] == t@[i as int]@);
        if t[i].pid == Some(pid) {
            return Some(i);
        }
        i = i + 1;
    }
    None
}

/// Record `k` with a new count (nothing where there is no record `k`).
pub fn set_count(t: &mut Vec<Watched>, k: usize, count: u32)
    ensures
        k < old(t)@.len() ==> watched_views(final(t)@) == watched_views(old(t)@).update(
            k as int,
            WatchedView { count, ..watched_views(old(t)@)[k as int] },
        ),
        k >= old(t)@.len() ==> final(t)@ == old(t)@,
{
    if k < t.len() {
        let ghost tv = watched_views(t@);
        assert(tv[k as int] == t@[k as int]@);
        let rec = Watched { id: t[k].id.clone(), entry: t[k].entry, pid: t[k].pid, count, started: t[k].started };
        t.set(k, rec);
        assert(watched_views(t@) =~= tv.update(k as int, WatchedView { count, ..tv[k as int] }));
    }
}

/// Record `k` after its entry was started again: its new process and start
/// time (nothing where there is no record `k`).
pub fn restarted(t: &mut Vec<Watched>, k: usize, pid: Option<i32>, now: u64)
    ensures
        k < old(t)@.len() ==> watched_views(final(t)@) == watched_views(old(t)@).update(
            k as int,
            WatchedView { pid, started: now, ..watched_views(old(t)@)[k as int] },
        ),
        k >= old(t)@.len() ==> final(t)@ == old(t)@,
{
    if k < t.len() {
        let ghost tv = watched_views(t@);
        assert(tv[k as int] == t@[k as int]@);
        let rec = Watched { id: t[k].id.clone(), entry: t[k].entry, pid, count: t[k].count, started: now };
        t.set(k, rec);
        assert(watched_views(t@) =~= tv.update(k as int, WatchedView { pid, started: now, ..tv[k as int] }));
    }
}


/// The record `pid_index` finds holds the process and lies in the table.
pub proof fn lemma_pid_index(t: Seq<WatchedView>, pid: i32, i: int)
    ensures
        pid_index(t, pid, i) matches Some(k) ==> i <= k < t.len() && t[k].pid == Some(pid),
    decreases t.len() - i,
{
    if 0 <= i < t.len() && t[i].pid != Some(pid) {
        lemma_pid_index(t, pid, i + 1);
    }
}

} // verus!
