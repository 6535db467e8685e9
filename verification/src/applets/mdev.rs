//! mdev: device-name patterns, the rules of /etc/mdev.conf, and what a
//! hotplug event or a scanned device asks to be done in /dev.
use vstd::prelude::*;
use crate::applets::mknod::{dev_number, makedev};
use crate::num::{parse_dec, parse_dec_exec, parse_unsigned, parse_unsigned_exec};
use crate::text::{chars_of, eq_lit, lines, lines_exec, push_all, push_str, split_exec, split_on, split_once, split_once_exec, starts_with, starts_with_lit, string_of, trim, trim_chars, vviews, words, words_exec};

verus! {

/// How an mdev invocation runs.
pub enum MdevMode {
    /// `-s`: scan /sys and create the nodes found there.
    Scan,
    /// `-d`: scan, then serve kernel uevents.
    Daemon,
    /// Otherwise: handle one hotplug event described by the environment.
    Hotplug,
}

/// Decides how `mdev args...` runs (`-s` wins over `-d`).
pub fn run(args: &[String]) -> (m: MdevMode)
    ensures
        (exists|i: int| 0 <= i < args@.len() && args@[i]@ == "-s"@) ==> m is Scan,
        !(exists|i: int| 0 <= i < args@.len() && args@[i]@ == "-s"@) && (exists|i: int|
            0 <= i < args@.len() && args@[i]@ == "-d"@) ==> m is Daemon,
        !(exists|i: int| 0 <= i < args@.len() && (args@[i]@ == "-s"@ || args@[i]@ == "-d"@))
            ==> m is Hotplug,
{
    if any_arg(args, "-s") {
        return MdevMode::Scan;
    }
    if any_arg(args, "-d") {
        return MdevMode::Daemon;
    }
    MdevMode::Hotplug
}

/// Is some argument exactly `lit`?
pub fn any_arg(args: &[String], lit: &str) -> (r: bool)
    ensures
        r == exists|i: int| 0 <= i < args@.len() && args@[i]@ == lit@,
{
    let mut i: usize = 0;
    while i < args.len()
        invariant
            i <= args@.len(),
            forall|k: int| 0 <= k < i ==> args@[k]@ != lit@,
        decreases args@.len() - i,
    {
        let a = chars_of(args[i].as_str());
        if eq_lit(a.as_slice(), lit) {
            return true;
        }
        i = i + 1;
    }
    false
}

// ---------------------------------------------------------------------------
// Patterns
// ---------------------------------------------------------------------------

/// Reads a bracket expression's members from `p` (after `[` and any `!` or
/// `^`), up to and including `]` or the end of the pattern: whether `tc`
/// matched a member (a character or an `a-z` range), and the rest of `p`.
pub open spec fn class_scan(p: Seq<char>, tc: char, prev: Option<char>, matched: bool) -> (bool, Seq<char>)
    decreases p.len(),
{
    if p.len() == 0 {
        (matched, p)
    } else {
        let c = p[0];
        let rest = p.drop_first();
        if c == ']' {
            (matched, rest)
        } else if c == '-' && prev is Some && rest.len() > 0 {
            let start = prev->0;
            let end = rest[0];
            class_scan(rest.drop_first(), tc, Some(end), matched || (start <= tc && tc <= end))
        } else {
            class_scan(rest, tc, Some(c), matched || tc == c)
        }
    }
}

/// Does `text` match the glob `pattern`? `*` matches any run of characters
/// (though a `*` with more pattern after it needs at least one character
/// of text left to try), `?` one character, `[...]` one character of the
/// set (`[!...]` or `[^...]` one not in it), anything else itself.
pub open spec fn glob(p: Seq<char>, t: Seq<char>) -> bool
    decreases p.len(), 0nat,
{
    if p.len() == 0 {
        t.len() == 0
    } else if p[0] == '*' {
        let q = p.drop_first();
        if q.len() == 0 {
            true
        } else {
            glob_star(q, t, 0)
        }
    } else if p[0] == '[' {
        let q = p.drop_first();
        let negate = q.len() > 0 && (q[0] == '!' || q[0] == '^');
        let q2 = if negate {
            q.drop_first()
        } else {
            q
        };
        if t.len() == 0 {
            false
        } else {
            let (m, rest) = class_scan(q2, t[0], None, false);
            let ok = if negate {
                !m
            } else {
                m
            };
            if !ok {
                false
            } else if rest.len() < p.len() {
                glob(rest, t.drop_first())
            } else {
                false
            }
        }
    } else if p[0] == '?' {
        t.len() > 0 && glob(p.drop_first(), t.drop_first())
    } else {
        t.len() > 0 && t[0] == p[0] && glob(p.drop_first(), t.drop_first())
    }
}

/// Does `q` match `t` with its first `k` characters, or more, dropped,
/// leaving at least one?
pub open spec fn glob_star(q: Seq<char>, t: Seq<char>, k: int) -> bool
    decreases q.len(), 1 + t.len() - k,
{
    if k < 0 || k >= t.len() {
        false
    } else {
        glob(q, t.skip(k)) || glob_star(q, t, k + 1)
    }
}

proof fn lemma_class_scan_shorter(p: Seq<char>, tc: char, prev: Option<char>, matched: bool)
    ensures
        class_scan(p, tc, prev, matched).1.len() <= p.len(),
        exists|k: int| 0 <= k <= p.len() && class_scan(p, tc, prev, matched).1 == p.skip(k),
    decreases p.len(),
{
    if p.len() == 0 {
        assert(p.skip(0) =~= p);
    } else {
        let c = p[0];
        let rest = p.drop_first();
        if c == ']' {
            assert(rest =~= p.skip(1));
        } else if c == '-' && prev is Some && rest.len() > 0 {
            let end = rest[0];
            let m2 = matched || (prev->0 <= tc && tc <= end);
            lemma_class_scan_shorter(rest.drop_first(), tc, Some(end), m2);
            let k = choose|k: int| 0 <= k <= rest.drop_first().len() && class_scan(rest.drop_first(), tc, Some(end), m2).1 == rest.drop_first().skip(k);
            assert(rest.drop_first().skip(k) =~= p.skip(k + 2));
        } else {
            lemma_class_scan_shorter(rest, tc, Some(c), matched || tc == c);
            let k = choose|k: int| 0 <= k <= rest.len() && class_scan(rest, tc, Some(c), matched || tc == c).1 == rest.skip(k);
            assert(rest.skip(k) =~= p.skip(k + 1));
        }
    }
}

/// The bracket expression scan on characters `p[pi..]`: whether `tc` is a
/// member, and the index just after the expression.
fn class_scan_exec(p: &[char], pi: usize, tc: char) -> (r: (bool, usize))
    requires
        pi <= p@.len(),
    ensures
        pi <= r.1 <= p@.len(),
        class_scan(p@.skip(pi as int), tc, None, false) == (r.0, p@.skip(r.1 as int)),
{
    let mut i: usize = pi;
    let mut prev: Option<char> = None;
    let mut matched = false;
    while i < p.len()
        invariant
            pi <= i <= p@.len(),
            class_scan(p@.skip(i as int), tc, prev, matched) == class_scan(
                p@.skip(pi as int),
                tc,
                None,
                false,
            ),
        decreases p@.len() - i,
    {
        let ghost s = p@.skip(i as int);
        let c = p[i];
        assert(s[0] == c);
        assert(s.drop_first() =~= p@.skip(i + 1));
        if c == ']' {
            return (matched, i + 1);
        }
        if c == '-' && prev.is_some() && i + 1 < p.len() {
            let start = prev.unwrap();
            let end = p[i + 1];
            assert(s.drop_first()[0] == end);
            assert(s.drop_first().drop_first() =~= p@.skip(i + 2));
            if tc >= start && tc <= end {
                matched = true;
            }
            prev = Some(end);
            i = i + 2;
        } else {
            if tc == c {
                matched = true;
            }
            prev = Some(c);
            i = i + 1;
        }
    }
    assert(p@.skip(i as int).len() == 0);
    (matched, i)
}

/// `glob(p[pi..], t[ti..])`.
fn glob_at(p: &[char], pi: usize, t: &[char], ti: usize) -> (r: bool)
    requires
        pi <= p@.len(),
        ti <= t@.len(),
    ensures
        r == glob(p@.skip(pi as int), t@.skip(ti as int)),
    decreases p@.len() - pi,
{
    let ghost ps = p@.skip(pi as int);
    let ghost ts = t@.skip(ti as int);
    if pi == p.len() {
        return ti == t.len();
    }
    let c = p[pi];
    assert(ps[0] == c);
    assert(ps.drop_first() =~= p@.skip(pi + 1));
    if ti < t.len() {
        assert(ts[0] == t@[ti as int]);
        assert(ts.drop_first() =~= t@.skip(ti + 1));
    }
    if c == '*' {
        if pi + 1 == p.len() {
            return true;
        }
        let ghost q = p@.skip(pi + 1);
        let mut k: usize = ti;
        while k < t.len()
            invariant
                ti <= k <= t@.len(),
                pi + 1 < p.len(),
                q == p@.skip(pi + 1),
                ps == p@.skip(pi as int),
                ps[0] == '*',
                ps.drop_first() == q,
                q.len() > 0,
                ts == t@.skip(ti as int),
                glob_star(q, ts, (k - ti) as int) == glob_star(q, ts, 0),
            decreases t@.len() - k,
        {
            assert(ts.skip((k - ti) as int) =~= t@.skip(k as int));
            if glob_at(p, pi + 1, t, k) {
                assert(glob_star(q, ts, (k - ti) as int));
                return true;
            }
            k = k + 1;
        }
        return false;
    } else if c == '[' {
        let mut j = pi + 1;
        let ghost q = ps.drop_first();
        let negate = j < p.len() && (p[j] == '!' || p[j] == '^');
        if j < p.len() {
            assert(q[0] == p[j as int]);
        }
        if negate {
            assert(q.drop_first() =~= p@.skip(j + 1));
            j = j + 1;
        }
        if ti == t.len() {
            return false;
        }
        let tc = t[ti];
        let (m, next) = class_scan_exec(p, j, tc);
        let ok = if negate {
            !m
        } else {
            m
        };
        if !ok {
            return false;
        }
        proof {
            lemma_class_scan_shorter(p@.skip(j as int), tc, None, false);
        }
        glob_at(p, next, t, ti + 1)
    } else if c == '?' {
        if ti == t.len() {
            return false;
        }
        glob_at(p, pi + 1, t, ti + 1)
    } else {
        if ti == t.len() || t[ti] != c {
            return false;
        }
        glob_at(p, pi + 1, t, ti + 1)
    }
}

/// Glob-style matching of a device name against an mdev.conf pattern.
pub fn glob_match(pattern: &str, text: &str) -> (r: bool)
    ensures
        r == glob(pattern@, text@),
{
    let p = chars_of(pattern);
    let t = chars_of(text);
    assert(p@.skip(0) =~= p@);
    assert(t@.skip(0) =~= t@);
    glob_at(p.as_slice(), 0, t.as_slice(), 0)
}


// ---------------------------------------------------------------------------
// Rules
// ---------------------------------------------------------------------------

/// One rule of /etc/mdev.conf: `<pattern> <uid>:<gid> <mode> [<action> [<parameter>]]`.
pub struct MdevRule {
    pub pattern: String,
    pub uid: u32,
    pub gid: u32,
    pub mode: u32,
    /// `=` or `>` link the node, `!` do not create it, `@` run on add,
    /// `$` run on remove, `*` run on both.
    pub action: Option<char>,
    /// The link name or the command.
    pub parameter: String,
}

pub struct RuleView {
    pub pattern: Seq<char>,
    pub uid: u32,
    pub gid: u32,
    pub mode: u32,
    pub action: Option<char>,
    pub parameter: Seq<char>,
}

impl View for MdevRule {
    type V = RuleView;

    open spec fn view(&self) -> RuleView {
        RuleView {
            pattern: self.pattern@,
            uid: self.uid,
            gid: self.gid,
            mode: self.mode,
            action: self.action,
            parameter: self.parameter@,
        }
    }
}

pub open spec fn rule_views(v: Seq<MdevRule>) -> Seq<RuleView> {
    v.map_values(|r: MdevRule| r@)
}

/// A `u32` in decimal, or 0.
pub open spec fn u32_or_zero(s: Seq<char>) -> u32 {
    match parse_dec(s, 0xffff_ffff) {
        Some(v) => v as u32,
        None => 0,
    }
}

/// The rule a line of mdev.conf holds, if any: lines that are empty or
/// start with `#` after trimming, and lines of fewer than three words, hold
/// none. An owner without `:` is `0:0`; an id that is not a number is 0; a
/// mode that is not octal is 0660.
pub open spec fn rule_of_line(line: Seq<char>) -> Option<RuleView> {
    let l = trim(line);
    let w = words(l);
    if l.len() == 0 || starts_with(l, "#"@) || w.len() < 3 {
        None
    } else {
        let (uid, gid) = match split_once(w[1], ':') {
            Some((u, g)) => (u32_or_zero(u), u32_or_zero(g)),
            None => (0u32, 0u32),
        };
        let mode = match parse_unsigned(w[2], 8, 0xffff_ffff) {
            Some(m) => m as u32,
            None => 0o660u32,
        };
        let action = if w.len() >= 4 {
            Some(w[3][0])
        } else {
            None
        };
        let parameter = if w.len() >= 5 {
            w[4]
        } else {
            Seq::empty()
        };
        Some(RuleView { pattern: w[0], uid, gid, mode, action, parameter })
    }
}

/// The rules of an mdev.conf text, in order.
pub open spec fn rules_spec(content: Seq<char>) -> Seq<RuleView> {
    lines(content).filter_map(|l: Seq<char>| rule_of_line(l))
}

fn u32_or_zero_exec(s: &[char]) -> (r: u32)
    ensures
        r == u32_or_zero(s@),
{
    match parse_dec_exec(s, 0xffff_ffff) {
        Some(v) => v as u32,
        None => 0,
    }
}

/// The rule on one line (see `rule_of_line`).
pub fn parse_rule_line(line: &[char]) -> (r: Option<MdevRule>)
    ensures
        match (r, rule_of_line(line@)) {
            (Some(a), Some(b)) => a@ == b,
            (None, None) => true,
            _ => false,
        },
{
    let l = trim_chars(line);
    if l.len() == 0 || starts_with_lit(l.as_slice(), "#") {
        return None;
    }
    let w = words_exec(l.as_slice());
    let ghost wv = vviews(w@);
    if w.len() < 3 {
        return None;
    }
    assert(w@[1]@ == wv[1] && w@[2]@ == wv[2] && w@[0]@ == wv[0]);
    let (uid, gid) = match split_once_exec(w[1].as_slice(), ':') {
        Some((u, g)) => (u32_or_zero_exec(u.as_slice()), u32_or_zero_exec(g.as_slice())),
        None => (0u32, 0u32),
    };
    let mode: u32 = match parse_unsigned_exec(w[2].as_slice(), 8, 0xffff_ffff) {
        Some(m) => m as u32,
        None => 0o660,
    };
    let action: Option<char> = if w.len() >= 4 {
        assert(w@[3]@ == wv[3]);
        proof {
            crate::text::lemma_words_nonempty(l@);
        }
        assert(wv[3].len() > 0);
        Some(w[3][0])
    } else {
        None
    };
    let parameter: Vec<char> = if w.len() >= 5 {
        assert(w@[4]@ == wv[4]);
        crate::text::copy_chars(w[4].as_slice())
    } else {
        Vec::new()
    };
    assert(w.len() < 5 ==> parameter@ =~= Seq::<char>::empty());
    Some(MdevRule {
        pattern: string_of(w[0].as_slice()),
        uid,
        gid,
        mode,
        action,
        parameter: string_of(parameter.as_slice()),
    })
}

/// Reads the rules out of mdev.conf text.
pub fn load_rules(content: &str) -> (r: Vec<MdevRule>)
    ensures
        rule_views(r@) == rules_spec(content@),
{
    let c = chars_of(content);
    let ls = lines_exec(c.as_slice());
    let ghost lv = vviews(ls@);
    let ghost f = |l: Seq<char>| rule_of_line(l);
    let mut r: Vec<MdevRule> = Vec::new();
    let mut i: usize = 0;
    assert(lv.take(0) =~= Seq::<Seq<char>>::empty());
    assert(rule_views(r@) =~= Seq::<RuleView>::empty());
    while i < ls.len()
        invariant
            i <= ls@.len(),
            lv == vviews(ls@),
            lv == lines(content@),
            f == (|l: Seq<char>| rule_of_line(l)),
            rule_views(r@) == lv.take(i as int).filter_map(f),
        decreases ls@.len() - i,
    {
        let ghost before = rule_views(r@);
        assert(lv[i as int] == ls@[i as int]@);
        match parse_rule_line(ls[i].as_slice()) {
            Some(rule) => {
                let ghost rv = rule@;
                r.push(rule);
                assert(rule_views(r@) =~= before.push(rv));
            },
            None => {},
        }
        proof {
            crate::applets::ip::lemma_filter_map_push(lv.take(i as int), lv[i as int], f);
            assert(lv.take(i + 1) =~= lv.take(i as int).push(lv[i as int]));
        }
        i = i + 1;
    }
    assert(lv.take(ls@.len() as int) =~= lv);
    r
}

/// The first rule whose pattern matches `name`.
pub open spec fn matching_rule(name: Seq<char>, rules: Seq<RuleView>) -> Option<RuleView>
    decreases rules.len(),
{
    if rules.len() == 0 {
        None
    } else if glob(rules[0].pattern, name) {
        Some(rules[0])
    } else {
        matching_rule(name, rules.drop_first())
    }
}

/// A copy of a rule.
pub fn copy_rule(r: &MdevRule) -> (c: MdevRule)
    ensures
        c@ == r@,
{
    MdevRule {
        pattern: r.pattern.clone(),
        uid: r.uid,
        gid: r.gid,
        mode: r.mode,
        action: r.action,
        parameter: r.parameter.clone(),
    }
}

/// Finds the first rule whose pattern matches the device name.
pub fn find_matching_rule(name: &str, rules: &[MdevRule]) -> (r: Option<MdevRule>)
    ensures
        match (r, matching_rule(name@, rule_views(rules@))) {
            (Some(a), Some(b)) => a@ == b,
            (None, None) => true,
            _ => false,
        },
{
    let ghost rv = rule_views(rules@);
    let mut i: usize = 0;
    assert(rv.skip(0) =~= rv);
    while i < rules.len()
        invariant
            i <= rules@.len(),
            rv == rule_views(rules@),
            matching_rule(name@, rv.skip(i as int)) == matching_rule(name@, rv),
        decreases rules@.len() - i,
    {
        let ghost s = rv.skip(i as int);
        assert(s[0] == rules@[i as int]@);
        assert(s.drop_first() =~= rv.skip(i + 1));
        if glob_match(rules[i].pattern.as_str(), name) {
            return Some(copy_rule(&rules[i]));
        }
        i = i + 1;
    }
    assert(rv.skip(i as int).len() == 0);
    None
}

// ---------------------------------------------------------------------------
// Device nodes
// ---------------------------------------------------------------------------

/// What follows the creation of a node.
pub enum AfterCreate {
    Nothing,
    /// Make a symbolic link at this path pointing at the node.
    Link(String),
    /// Run this shell command with MDEV set to the name and ACTION=add.
    Run(String),
}

/// A device node to create.
pub struct NodePlan {
    /// `/dev/<name>`, or `/dev/<parameter>` for a `>` rule.
    pub path: String,
    pub major: u32,
    pub minor: u32,
    /// The device number of `major` and `minor`.
    pub dev: u64,
    pub block: bool,
    pub mode: u32,
    pub uid: u32,
    pub gid: u32,
    /// `false` when a rule says not to create it.
    pub create: bool,
    pub after: AfterCreate,
}

pub enum AfterView {
    Nothing,
    Link(Seq<char>),
    Run(Seq<char>),
}

pub struct NodeView {
    pub path: Seq<char>,
    pub major: u32,
    pub minor: u32,
    pub dev: u64,
    pub block: bool,
    pub mode: u32,
    pub uid: u32,
    pub gid: u32,
    pub create: bool,
    pub after: AfterView,
}

impl View for NodePlan {
    type V = NodeView;

    open spec fn view(&self) -> NodeView {
        NodeView {
            path: self.path@,
            major: self.major,
            minor: self.minor,
            dev: self.dev,
            block: self.block,
            mode: self.mode,
            uid: self.uid,
            gid: self.gid,
            create: self.create,
            after: match &self.after {
                AfterCreate::Nothing => AfterView::Nothing,
                AfterCreate::Link(s) => AfterView::Link(s@),
                AfterCreate::Run(s) => AfterView::Run(s@),
            },
        }
    }
}

/// The device number text `major:minor`, if it is two `u32`s.
pub open spec fn dev_numbers(dev_num: Seq<char>) -> Option<(u32, u32)> {
    let parts = split_on(dev_num, ':');
    if parts.len() != 2 {
        None
    } else {
        match (parse_dec(parts[0], 0xffff_ffff), parse_dec(parts[1], 0xffff_ffff)) {
            (Some(a), Some(b)) => Some((a as u32, b as u32)),
            _ => None,
        }
    }
}

/// Whether a matching rule moves the node: `>` with a parameter.
pub open spec fn moves_node(rule: Option<RuleView>) -> bool {
    rule matches Some(r) && r.action == Some('>') && r.parameter.len() > 0
}

/// Where the node of device `name` lies: `/dev/<parameter>` where the
/// matching rule moves it, else `/dev/<name>`.
pub open spec fn node_path(name: Seq<char>, rule: Option<RuleView>) -> Seq<char> {
    if moves_node(rule) {
        "/dev/"@ + rule->0.parameter
    } else {
        "/dev/"@ + name
    }
}

/// The node for device `name` with number text `dev_num`: mode 0660 and
/// owner 0:0 unless a rule matches; at `/dev/<name>`, or at
/// `/dev/<parameter>` where a `>` rule with a parameter moves it; a
/// matching `=` rule with a parameter links `/dev/<parameter>` to the node,
/// an `@` or `*` rule runs the parameter.
pub open spec fn node_spec(name: Seq<char>, dev_num: Seq<char>, block: bool, rules: Seq<RuleView>) -> Option<NodeView> {
    match dev_numbers(dev_num) {
        None => None,
        Some((major, minor)) => {
            let rule = matching_rule(name, rules);
            let (mode, uid, gid) = match rule {
                Some(r) => (r.mode, r.uid, r.gid),
                None => (0o660u32, 0u32, 0u32),
            };
            let create = !(rule matches Some(r) && r.action == Some('!'));
            let after = match rule {
                Some(r) => if r.parameter.len() == 0 {
                    AfterView::Nothing
                } else if r.action == Some('=') {
                    AfterView::Link("/dev/"@ + r.parameter)
                } else if r.action == Some('@') || r.action == Some('*') {
                    AfterView::Run(r.parameter)
                } else {
                    AfterView::Nothing
                },
                None => AfterView::Nothing,
            };
            Some(
                NodeView {
                    path: node_path(name, rule),
                    major,
                    minor,
                    dev: dev_number(major, minor),
                    block,
                    mode,
                    uid,
                    gid,
                    create,
                    after,
                },
            )
        },
    }
}

/// Decides the device node for a device (see `node_spec`). The node is
/// made only when its path does not exist yet, and what follows only when
/// making it succeeded.
pub fn node_plan(name: &str, dev_num: &str, block: bool, rules: &[MdevRule]) -> (r: Option<NodePlan>)
    ensures
        match (r, node_spec(name@, dev_num@, block, rule_views(rules@))) {
            (Some(a), Some(b)) => a@ == b,
            (None, None) => true,
            _ => false,
        },
{
    let d = chars_of(dev_num);
    let parts = split_exec(d.as_slice(), ':');
    if parts.len() != 2 {
        return None;
    }
    let ghost pv = vviews(parts@);
    assert(parts@[0]@ == pv[0] && parts@[1]@ == pv[1]);
    let major = match parse_dec_exec(parts[0].as_slice(), 0xffff_ffff) {
        Some(v) => v as u32,
        None => return None,
    };
    let minor = match parse_dec_exec(parts[1].as_slice(), 0xffff_ffff) {
        Some(v) => v as u32,
        None => return None,
    };
    let rule = find_matching_rule(name, rules);
    let (mode, uid, gid) = match &rule {
        Some(r) => (r.mode, r.uid, r.gid),
        None => (0o660u32, 0u32, 0u32),
    };
    let create = match &rule {
        Some(r) => r.action != Some('!'),
        None => true,
    };
    let after = match &rule {
        Some(r) => {
            let p = chars_of(r.parameter.as_str());
            if p.len() == 0 {
                AfterCreate::Nothing
            } else if r.action == Some('=') {
                let mut l = chars_of("/dev/");
                push_all(&mut l, p.as_slice());
                AfterCreate::Link(string_of(l.as_slice()))
            } else if r.action == Some('@') || r.action == Some('*') {
                AfterCreate::Run(r.parameter.clone())
            } else {
                AfterCreate::Nothing
            }
        },
        None => AfterCreate::Nothing,
    };
    let mut path = chars_of("/dev/");
    let moved = match &rule {
        Some(r) => r.action == Some('>') && chars_of(r.parameter.as_str()).len() > 0,
        None => false,
    };
    if moved {
        match &rule {
            Some(r) => push_all(&mut path, chars_of(r.parameter.as_str()).as_slice()),
            None => {},
        }
    } else {
        push_all(&mut path, chars_of(name).as_slice());
    }
    let dev = makedev(major, minor);
    Some(NodePlan { path: string_of(path.as_slice()), major, minor, dev, block, mode, uid, gid, create, after })
}

/// What a hotplug event asks for.
pub enum HotplugPlan {
    /// Neither DEVNAME nor DEVPATH is set: status 1.
    NoDevice,
    /// The device name comes out empty: status 1.
    NoName,
    /// `add` with both numbers: create the node.
    Add(Option<NodePlan>),
    /// `remove`: delete the node (`/dev/<name>`, or where a `>` rule moved
    /// it) if it exists, then run the command of
    /// a matching `$` or `*` rule, if it has one (MDEV=name, ACTION=remove).
    Remove(String, Option<String>),
    /// Anything else: nothing, status 0.
    Ignore,
}

/// The device name of an event: DEVNAME, or the last `/`-separated part of
/// DEVPATH.
pub open spec fn event_name(devname: Seq<char>, devpath: Seq<char>) -> Seq<char> {
    if devname.len() > 0 {
        devname
    } else {
        split_on(devpath, '/').last()
    }
}

pub open spec fn remove_command(name: Seq<char>, rules: Seq<RuleView>) -> Option<Seq<char>> {
    match matching_rule(name, rules) {
        Some(r) => if (r.action == Some('$') || r.action == Some('*')) && r.parameter.len() > 0 {
            Some(r.parameter)
        } else {
            None
        },
        None => None,
    }
}

/// What the plan of a hotplug event must be, for its environment values
/// and the rules of mdev.conf.
pub open spec fn hotplug_spec(
    r: HotplugPlan,
    action: Seq<char>,
    devname: Seq<char>,
    devpath: Seq<char>,
    major: Seq<char>,
    minor: Seq<char>,
    subsystem: Seq<char>,
    rules: Seq<RuleView>,
) -> bool {
    &&& devname.len() == 0 && devpath.len() == 0 ==> r is NoDevice
    &&& !(devname.len() == 0 && devpath.len() == 0) ==> {
        let name = event_name(devname, devpath);
        if name.len() == 0 {
            r is NoName
        } else if action == "add"@ && major.len() > 0 && minor.len() > 0 {
            r matches HotplugPlan::Add(p) && match (p, node_spec(
                name,
                major + ":"@ + minor,
                subsystem == "block"@,
                rules,
            )) {
                (Some(a), Some(b)) => a@ == b,
                (None, None) => true,
                _ => false,
            }
        } else if action == "remove"@ {
            r matches HotplugPlan::Remove(path, cmd) && path@ == node_path(name, matching_rule(name, rules)) && match (
                cmd,
                remove_command(name, rules),
            ) {
                (Some(a), Some(b)) => a@ == b,
                (None, None) => true,
                _ => false,
            }
        } else {
            r is Ignore
        }
    }
}

/// Decides what a hotplug event described by its environment values asks
/// for, with the rules of mdev.conf.
pub fn hotplug_plan(
    action: &str,
    devname: &str,
    devpath: &str,
    major: &str,
    minor: &str,
    subsystem: &str,
    rules: &[MdevRule],
) -> (r: HotplugPlan)
    ensures
        hotplug_spec(r, action@, devname@, devpath@, major@, minor@, subsystem@, rule_views(rules@)),
{
    let dn = chars_of(devname);
    let dp = chars_of(devpath);
    if dn.len() == 0 && dp.len() == 0 {
        return HotplugPlan::NoDevice;
    }
    let name: Vec<char> = if dn.len() > 0 {
        dn
    } else {
        let parts = split_exec(dp.as_slice(), '/');
        proof {
            crate::text::lemma_split_nonempty(dp@, '/');
        }
        let last = parts.len() - 1;
        assert(parts@[last as int]@ == vviews(parts@).last());
        crate::text::copy_chars(parts[last].as_slice())
    };
    if name.len() == 0 {
        return HotplugPlan::NoName;
    }
    let name_s = string_of(name.as_slice());
    let a = chars_of(action);
    if eq_lit(a.as_slice(), "add") && chars_of(major).len() > 0 && chars_of(minor).len() > 0 {
        let mut num = chars_of(major);
        push_str(&mut num, ":");
        push_all(&mut num, chars_of(minor).as_slice());
        let num_s = string_of(num.as_slice());
        let sub = chars_of(subsystem);
        let block = eq_lit(sub.as_slice(), "block");
        HotplugPlan::Add(node_plan(name_s.as_str(), num_s.as_str(), block, rules))
    } else if eq_lit(a.as_slice(), "remove") {
        let rule = find_matching_rule(name_s.as_str(), rules);
        let mut path = chars_of("/dev/");
        let moved = match &rule {
            Some(r) => r.action == Some('>') && chars_of(r.parameter.as_str()).len() > 0,
            None => false,
        };
        if moved {
            match &rule {
                Some(r) => push_all(&mut path, chars_of(r.parameter.as_str()).as_slice()),
                None => {},
            }
        } else {
            push_all(&mut path, name.as_slice());
        }
        let cmd = match rule {
            Some(r) => {
                if (r.action == Some('$') || r.action == Some('*')) && chars_of(
                    r.parameter.as_str(),
                ).len() > 0 {
                    Some(r.parameter)
                } else {
                    None
                }
            },
            None => None,
        };
        HotplugPlan::Remove(string_of(path.as_slice()), cmd)
    } else {
        HotplugPlan::Ignore
    }
}

/// The fields of a kernel uevent that mdev reads.
pub struct Uevent {
    pub action: String,
    pub devname: String,
    pub major: String,
    pub minor: String,
    pub subsystem: String,
}

pub struct UeventView {
    pub action: Seq<char>,
    pub devname: Seq<char>,
    pub major: Seq<char>,
    pub minor: Seq<char>,
    pub subsystem: Seq<char>,
}

impl View for Uevent {
    type V = UeventView;

    open spec fn view(&self) -> UeventView {
        UeventView {
            action: self.action@,
            devname: self.devname@,
            major: self.major@,
            minor: self.minor@,
            subsystem: self.subsystem@,
        }
    }
}

/// The fields after reading the NUL-separated records `recs[i..]`: for
/// each key, the value of its last record.
pub open spec fn uevent_fields(recs: Seq<Seq<char>>, i: int, e: UeventView) -> UeventView
    decreases recs.len() - i,
{
    if i < 0 || i >= recs.len() {
        e
    } else {
        let r = recs[i];
        let e2 = if starts_with(r, "ACTION="@) {
            UeventView { action: r.skip(7), ..e }
        } else if starts_with(r, "DEVNAME="@) {
            UeventView { devname: r.skip(8), ..e }
        } else if starts_with(r, "MAJOR="@) {
            UeventView { major: r.skip(6), ..e }
        } else if starts_with(r, "MINOR="@) {
            UeventView { minor: r.skip(6), ..e }
        } else if starts_with(r, "SUBSYSTEM="@) {
            UeventView { subsystem: r.skip(10), ..e }
        } else {
            e
        };
        uevent_fields(recs, i + 1, e2)
    }
}

pub open spec fn empty_uevent() -> UeventView {
    UeventView {
        action: Seq::empty(),
        devname: Seq::empty(),
        major: Seq::empty(),
        minor: Seq::empty(),
        subsystem: Seq::empty(),
    }
}

fn suffix_string(r: &[char], n: usize) -> (s: String)
    requires
        n <= r@.len(),
    ensures
        s@ == r@.skip(n as int),
{
    let v = crate::text::slice_chars(r, n, r.len());
    assert(v@ =~= r@.skip(n as int));
    string_of(v.as_slice())
}

/// Reads a uevent message; `None` when it names no device.
pub fn parse_uevent(msg: &str) -> (r: Option<Uevent>)
    ensures
        ({
            let e = uevent_fields(split_on(msg@, '\0'), 0, empty_uevent());
            match r {
                Some(u) => u@ == e && e.devname.len() > 0,
                None => e.devname.len() == 0,
            }
        }),
{
    let m = chars_of(msg);
    let recs = split_exec(m.as_slice(), '\0');
    let ghost rv = vviews(recs@);
    let empty: Vec<char> = Vec::new();
    let mut e = Uevent {
        action: string_of(empty.as_slice()),
        devname: string_of(empty.as_slice()),
        major: string_of(empty.as_slice()),
        minor: string_of(empty.as_slice()),
        subsystem: string_of(empty.as_slice()),
    };
    assert(e@ == empty_uevent());
    let mut i: usize = 0;
    while i < recs.len()
        invariant
            i <= recs@.len(),
            rv == vviews(recs@),
            uevent_fields(rv, i as int, e@) == uevent_fields(rv, 0, empty_uevent()),
        decreases recs@.len() - i,
    {
        let r = recs[i].as_slice();
        assert(r@ == rv[i as int]);
        proof {
            reveal_strlit("ACTION=");
            reveal_strlit("DEVNAME=");
            reveal_strlit("MAJOR=");
            reveal_strlit("MINOR=");
            reveal_strlit("SUBSYSTEM=");
        }
        if starts_with_lit(r, "ACTION=") {
            e.action = suffix_string(r, 7);
        } else if starts_with_lit(r, "DEVNAME=") {
            e.devname = suffix_string(r, 8);
        } else if starts_with_lit(r, "MAJOR=") {
            e.major = suffix_string(r, 6);
        } else if starts_with_lit(r, "MINOR=") {
            e.minor = suffix_string(r, 6);
        } else if starts_with_lit(r, "SUBSYSTEM=") {
            e.subsystem = suffix_string(r, 10);
        }
        i = i + 1;
    }
    if chars_of(e.devname.as_str()).len() > 0 {
        Some(e)
    } else {
        None
    }
}


/// A pattern without `*`, `?` or `[`.
pub open spec fn is_plain_pattern(p: Seq<char>) -> bool {
    forall|i: int| 0 <= i < p.len() ==> #[trigger] p[i] != '*' && p[i] != '?' && p[i] != '['
}

/// A pattern without wildcards matches exactly the name it spells, and the
/// pattern `*` matches every name.
pub proof fn lemma_plain_pattern(p: Seq<char>, t: Seq<char>)
    requires
        is_plain_pattern(p),
    ensures
        glob(p, t) == (t == p),
        glob("*"@, t),
    decreases p.len(),
{
    reveal_strlit("*");
    if p.len() == 0 {
        if t.len() == 0 {
            assert(t =~= p);
        }
    } else {
        let p1 = p.drop_first();
        assert(is_plain_pattern(p1)) by {
            assert forall|i: int| 0 <= i < p1.len() implies #[trigger] p1[i] != '*' && p1[i] != '?' && p1[i] != '[' by {
                assert(p1[i] == p[i + 1]);
            }
        }
        assert(p[0] != '*' && p[0] != '?' && p[0] != '[');
        if t.len() > 0 {
            lemma_plain_pattern(p1, t.drop_first());
            if t == p {
                assert(t.drop_first() =~= p1);
            }
            if t[0] == p[0] && t.drop_first() == p1 {
                assert forall|i: int| 0 <= i < t.len() implies t[i] == p[i] by {
                    if i > 0 {
                        assert(t[i] == t.drop_first()[i - 1]);
                    }
                }
                assert(t =~= p);
            }
        }
    }
}


/// What a uevent message asks for: nothing without a device name, else
/// the plan of the hotplug event its fields describe (the last value of
/// each field), with `devpath` from the environment and the rules of
/// mdev.conf.
pub fn uevent_plan(msg: &str, devpath: &str, rules: &[MdevRule]) -> (r: Option<HotplugPlan>)
    ensures
        ({
            let e = uevent_fields(split_on(msg@, '\0'), 0, empty_uevent());
            &&& e.devname.len() == 0 ==> r is None
            &&& e.devname.len() > 0 ==> (r matches Some(p) && hotplug_spec(
                p,
                e.action,
                e.devname,
                devpath@,
                e.major,
                e.minor,
                e.subsystem,
                rule_views(rules@),
            ))
        }),
{
    match parse_uevent(msg) {
        None => None,
        Some(ev) => Some(
            hotplug_plan(
                ev.action.as_str(),
                ev.devname.as_str(),
                devpath,
                ev.major.as_str(),
                ev.minor.as_str(),
                ev.subsystem.as_str(),
                rules,
            ),
        ),
    }
}

} // verus!
