//! The systemd-compatible init: .service unit files, the order in which a
//! target's services start, how a service starts and when it restarts.
use vstd::prelude::*;
use crate::num::{parse_dec, parse_dec_exec};
use crate::text::{chars_of, ends_with, ends_with_lit, eq_chars, eq_lit, lines, lines_exec, slice_chars, split_once, split_once_exec, starts_with, starts_with_lit, string_of, to_string, trim, trim_char, trim_char_exec, trim_char_start, trim_chars, views, vviews, words, words_exec};
use vstd::seq_lib::seq_to_set_is_finite;
use vstd::set_lib::lemma_len_subset;

verus! {

/// Service type.
#[derive(PartialEq, Eq, Structural, Clone, Copy)]
pub enum ServiceType {
    Simple,
    Forking,
    Oneshot,
}

/// Restart policy.
#[derive(PartialEq, Eq, Structural, Clone, Copy)]
pub enum RestartPolicy {
    No,
    Always,
    OnFailure,
}

/// A parsed .service unit file.
pub struct ServiceUnit {
    pub name: String,
    pub description: String,
    pub service_type: ServiceType,
    pub exec_start_pre: Vec<String>,
    pub exec_start: String,
    pub exec_start_post: Vec<String>,
    pub exec_stop: String,
    pub restart: RestartPolicy,
    pub restart_sec: u64,
    pub working_directory: String,
    pub environment: Vec<(String, String)>,
    pub after: Vec<String>,
    pub before: Vec<String>,
    pub requires: Vec<String>,
    pub wants: Vec<String>,
    pub wanted_by: Vec<String>,
}

pub struct UnitView {
    pub name: Seq<char>,
    pub description: Seq<char>,
    pub service_type: ServiceType,
    pub exec_start_pre: Seq<Seq<char>>,
    pub exec_start: Seq<char>,
    pub exec_start_post: Seq<Seq<char>>,
    pub exec_stop: Seq<char>,
    pub restart: RestartPolicy,
    pub restart_sec: u64,
    pub working_directory: Seq<char>,
    pub environment: Seq<(Seq<char>, Seq<char>)>,
    pub after: Seq<Seq<char>>,
    pub before: Seq<Seq<char>>,
    pub requires: Seq<Seq<char>>,
    pub wants: Seq<Seq<char>>,
    pub wanted_by: Seq<Seq<char>>,
}

pub open spec fn env_views(v: Seq<(String, String)>) -> Seq<(Seq<char>, Seq<char>)> {
    v.map_values(|p: (String, String)| (p.0@, p.1@))
}

impl View for ServiceUnit {
    type V = UnitView;

    open spec fn view(&self) -> UnitView {
        UnitView {
            name: self.name@,
            description: self.description@,
            service_type: self.service_type,
            exec_start_pre: views(self.exec_start_pre@),
            exec_start: self.exec_start@,
            exec_start_post: views(self.exec_start_post@),
            exec_stop: self.exec_stop@,
            restart: self.restart,
            restart_sec: self.restart_sec,
            working_directory: self.working_directory@,
            environment: env_views(self.environment@),
            after: views(self.after@),
            before: views(self.before@),
            requires: views(self.requires@),
            wants: views(self.wants@),
            wanted_by: views(self.wanted_by@),
        }
    }
}

pub open spec fn unit_views(v: Seq<ServiceUnit>) -> Seq<UnitView> {
    v.map_values(|u: ServiceUnit| u@)
}

/// A unit with the given name and every setting at its default.
pub open spec fn default_unit(name: Seq<char>) -> UnitView {
    UnitView {
        name,
        description: seq![],
        service_type: ServiceType::Simple,
        exec_start_pre: seq![],
        exec_start: seq![],
        exec_start_post: seq![],
        exec_stop: seq![],
        restart: RestartPolicy::No,
        restart_sec: 1,
        working_directory: "/"@,
        environment: seq![],
        after: seq![],
        before: seq![],
        requires: seq![],
        wants: seq![],
        wanted_by: seq![],
    }
}

fn new_unit(name: String) -> (u: ServiceUnit)
    ensures
        u@ == default_unit(name@),
{
    let empty: Vec<char> = Vec::new();
    let u = ServiceUnit {
        name,
        description: string_of(empty.as_slice()),
        service_type: ServiceType::Simple,
        exec_start_pre: Vec::new(),
        exec_start: string_of(empty.as_slice()),
        exec_start_post: Vec::new(),
        exec_stop: string_of(empty.as_slice()),
        restart: RestartPolicy::No,
        restart_sec: 1,
        working_directory: to_string("/"),
        environment: Vec::new(),
        after: Vec::new(),
        before: Vec::new(),
        requires: Vec::new(),
        wants: Vec::new(),
        wanted_by: Vec::new(),
    };
    assert(views(u.exec_start_pre@) =~= Seq::<Seq<char>>::empty());
    assert(views(u.exec_start_post@) =~= Seq::<Seq<char>>::empty());
    assert(views(u.after@) =~= Seq::<Seq<char>>::empty());
    assert(views(u.before@) =~= Seq::<Seq<char>>::empty());
    assert(views(u.requires@) =~= Seq::<Seq<char>>::empty());
    assert(views(u.wants@) =~= Seq::<Seq<char>>::empty());
    assert(views(u.wanted_by@) =~= Seq::<Seq<char>>::empty());
    assert(env_views(u.environment@) =~= Seq::<(Seq<char>, Seq<char>)>::empty());
    assert(u@.description =~= Seq::<char>::empty());
    assert(u@.exec_start =~= Seq::<char>::empty());
    assert(u@.exec_stop =~= Seq::<char>::empty());
    u
}

/// The parser's state: the current section and the unit so far.
pub struct ParseState {
    pub section: Seq<char>,
    pub unit: UnitView,
}

/// A unit after the assignment `key=value` in `section`.
pub open spec fn assign(section: Seq<char>, key: Seq<char>, value: Seq<char>, u: UnitView) -> UnitView {
    if section == "Unit"@ {
        if key == "Description"@ {
            UnitView { description: value, ..u }
        } else if key == "After"@ {
            UnitView { after: u.after + words(value), ..u }
        } else if key == "Before"@ {
            UnitView { before: u.before + words(value), ..u }
        } else if key == "Requires"@ {
            UnitView { requires: u.requires + words(value), ..u }
        } else if key == "Wants"@ {
            UnitView { wants: u.wants + words(value), ..u }
        } else {
            u
        }
    } else if section == "Service"@ {
        if key == "Type"@ {
            UnitView {
                service_type: if value == "forking"@ {
                    ServiceType::Forking
                } else if value == "oneshot"@ {
                    ServiceType::Oneshot
                } else {
                    ServiceType::Simple
                },
                ..u
            }
        } else if key == "ExecStartPre"@ {
            UnitView { exec_start_pre: u.exec_start_pre.push(value), ..u }
        } else if key == "ExecStart"@ {
            UnitView { exec_start: value, ..u }
        } else if key == "ExecStartPost"@ {
            UnitView { exec_start_post: u.exec_start_post.push(value), ..u }
        } else if key == "ExecStop"@ {
            UnitView { exec_stop: value, ..u }
        } else if key == "Restart"@ {
            UnitView {
                restart: if value == "always"@ {
                    RestartPolicy::Always
                } else if value == "on-failure"@ {
                    RestartPolicy::OnFailure
                } else {
                    RestartPolicy::No
                },
                ..u
            }
        } else if key == "RestartSec"@ {
            UnitView {
                restart_sec: match parse_dec(value, u64::MAX as nat) {
                    Some(v) => v as u64,
                    None => 1,
                },
                ..u
            }
        } else if key == "WorkingDirectory"@ {
            UnitView { working_directory: value, ..u }
        } else if key == "Environment"@ {
            match split_once(value, '=') {
                Some((k, v)) => UnitView {
                    environment: u.environment.push((trim_char(k, '"'), trim_char(v, '"'))),
                    ..u
                },
                None => u,
            }
        } else {
            u
        }
    } else if section == "Install"@ {
        if key == "WantedBy"@ || key == "RequiredBy"@ {
            UnitView { wanted_by: u.wanted_by + words(value), ..u }
        } else {
            u
        }
    } else {
        u
    }
}

/// One line of a unit file: blank lines and `#` or `;` comments are
/// skipped, `[name]` starts a section, and `key=value` (both trimmed) is
/// an assignment in the current section; anything else is ignored.
pub open spec fn line_step(st: ParseState, line: Seq<char>) -> ParseState {
    let l = trim(line);
    if l.len() == 0 || starts_with(l, "#"@) || starts_with(l, ";"@) {
        st
    } else if starts_with(l, "["@) && ends_with(l, "]"@) && l.len() >= 2 {
        ParseState { section: l.subrange(1, l.len() - 1), ..st }
    } else {
        match split_once(l, '=') {
            Some((k, v)) => ParseState { unit: assign(st.section, trim(k), trim(v), st.unit), ..st },
            None => st,
        }
    }
}

pub open spec fn parse_run(ls: Seq<Seq<char>>, n: int, st: ParseState) -> ParseState
    decreases n,
{
    if n <= 0 || n > ls.len() {
        st
    } else {
        line_step(parse_run(ls, n - 1, st), ls[n - 1])
    }
}

/// The unit described by a unit file's text, named `name`; none when it
/// has no `ExecStart`.
pub open spec fn service_spec(name: Seq<char>, content: Seq<char>) -> Option<UnitView> {
    let ls = lines(content);
    let st = parse_run(ls, ls.len() as int, ParseState { section: seq![], unit: default_unit(name) });
    if st.unit.exec_start.len() == 0 {
        None
    } else {
        Some(st.unit)
    }
}

fn extend_words(v: &mut Vec<String>, value: &[char])
    ensures
        views(final(v)@) == views(old(v)@) + words(value@),
{
    let w = words_exec(value);
    let ghost wv = vviews(w@);
    let ghost base = views(v@);
    let mut i: usize = 0;
    assert(views(v@) =~= base + wv.take(0));
    while i < w.len()
        invariant
            i <= w@.len(),
            wv == vviews(w@),
            views(v@) == base + wv.take(i as int),
        decreases w@.len() - i,
    {
        let ghost before = views(v@);
        v.push(string_of(w[i].as_slice()));
        assert(views(v@) =~= before.push(w@[i as int]@));
        assert(wv.take(i + 1) =~= wv.take(i as int).push(wv[i as int]));
        i = i + 1;
    }
    assert(wv.take(w@.len() as int) =~= wv);
}

fn push_string(v: &mut Vec<String>, s: String)
    ensures
        views(final(v)@) == views(old(v)@).push(s@),
{
    v.push(s);
    assert(views(v@) =~= views(old(v)@).push(s@));
}

fn apply_assign(section: &[char], key: &[char], value: &[char], u: &mut ServiceUnit)
    ensures
        final(u)@ == assign(section@, key@, value@, old(u)@),
{
    if eq_lit(section, "Unit") {
        if eq_lit(key, "Description") {
            u.description = string_of(value);
        } else if eq_lit(key, "After") {
            extend_words(&mut u.after, value);
        } else if eq_lit(key, "Before") {
            extend_words(&mut u.before, value);
        } else if eq_lit(key, "Requires") {
            extend_words(&mut u.requires, value);
        } else if eq_lit(key, "Wants") {
            extend_words(&mut u.wants, value);
        }
    } else if eq_lit(section, "Service") {
        if eq_lit(key, "Type") {
            u.service_type = if eq_lit(value, "forking") {
                ServiceType::Forking
            } else if eq_lit(value, "oneshot") {
                ServiceType::Oneshot
            } else {
                ServiceType::Simple
            };
        } else if eq_lit(key, "ExecStartPre") {
            push_string(&mut u.exec_start_pre, string_of(value));
        } else if eq_lit(key, "ExecStart") {
            u.exec_start = string_of(value);
        } else if eq_lit(key, "ExecStartPost") {
            push_string(&mut u.exec_start_post, string_of(value));
        } else if eq_lit(key, "ExecStop") {
            u.exec_stop = string_of(value);
        } else if eq_lit(key, "Restart") {
            u.restart = if eq_lit(value, "always") {
                RestartPolicy::Always
            } else if eq_lit(value, "on-failure") {
                RestartPolicy::OnFailure
            } else {
                RestartPolicy::No
            };
        } else if eq_lit(key, "RestartSec") {
            u.restart_sec = match parse_dec_exec(value, u64::MAX) {
                Some(v) => v,
                None => 1,
            };
        } else if eq_lit(key, "WorkingDirectory") {
            u.working_directory = string_of(value);
        } else if eq_lit(key, "Environment") {
            match split_once_exec(value, '=') {
                Some((k, v)) => {
                    let kk = trim_char_exec(k.as_slice(), '"');
                    let vv = trim_char_exec(v.as_slice(), '"');
                    let ghost before = env_views(u.environment@);
                    u.environment.push((string_of(kk.as_slice()), string_of(vv.as_slice())));
                    assert(env_views(u.environment@) =~= before.push((kk@, vv@)));
                },
                None => {},
            }
        }
    } else if eq_lit(section, "Install") {
        if eq_lit(key, "WantedBy") || eq_lit(key, "RequiredBy") {
            extend_words(&mut u.wanted_by, value);
        }
    }
}

/// Parses a .service file's text into the unit named `name` (see
/// `service_spec`).
pub fn parse_service(name: &str, content: &str) -> (r: Option<ServiceUnit>)
    ensures
        match (r, service_spec(name@, content@)) {
            (Some(a), Some(b)) => a@ == b,
            (None, None) => true,
            _ => false,
        },
{
    let c = chars_of(content);
    let ls = lines_exec(c.as_slice());
    let ghost lv = vviews(ls@);
    let mut unit = new_unit(to_string(name));
    let mut section: Vec<char> = Vec::new();
    let ghost st0 = ParseState { section: seq![], unit: default_unit(name@) };
    let mut i: usize = 0;
    assert(section@ =~= Seq::<char>::empty());
    while i < ls.len()
        invariant
            i <= ls@.len(),
            lv == vviews(ls@),
            lv == lines(content@),
            parse_run(lv, i as int, st0) == (ParseState { section: section@, unit: unit@ }),
        decreases ls@.len() - i,
    {
        assert(lv[i as int] == ls@[i as int]@);
        let l = trim_chars(ls[i].as_slice());
        if l.len() == 0 || starts_with_lit(l.as_slice(), "#") || starts_with_lit(l.as_slice(), ";") {
        } else if starts_with_lit(l.as_slice(), "[") && ends_with_lit(l.as_slice(), "]") && l.len() >= 2 {
            section = slice_chars(l.as_slice(), 1, l.len() - 1);
        } else {
            match split_once_exec(l.as_slice(), '=') {
                Some((k, v)) => {
                    let kt = trim_chars(k.as_slice());
                    let vt = trim_chars(v.as_slice());
                    apply_assign(section.as_slice(), kt.as_slice(), vt.as_slice(), &mut unit);
                },
                None => {},
            }
        }
        i = i + 1;
    }
    if chars_of(unit.exec_start.as_str()).len() == 0 {
        return None;
    }
    Some(unit)
}

// ---------------------------------------------------------------------------
// The set of units and the order of a target's services
// ---------------------------------------------------------------------------

/// The index of the first unit named `name`.
pub open spec fn unit_index(units: Seq<UnitView>, name: Seq<char>) -> Option<int>
    decreases units.len(),
{
    if units.len() == 0 {
        None
    } else if units[0].name == name {
        Some(0)
    } else {
        match unit_index(units.drop_first(), name) {
            Some(k) => Some(k + 1),
            None => None,
        }
    }
}

proof fn lemma_unit_index(units: Seq<UnitView>, name: Seq<char>)
    ensures
        match unit_index(units, name) {
            Some(k) => 0 <= k < units.len() && units[k].name == name && forall|j: int|
                0 <= j < k ==> units[j].name != name,
            None => forall|j: int| 0 <= j < units.len() ==> units[j].name != name,
        },
    decreases units.len(),
{
    if units.len() > 0 && units[0].name != name {
        lemma_unit_index(units.drop_first(), name);
        assert forall|j: int| 1 <= j < units.len() implies units[j].name == units.drop_first()[j - 1].name by {}
    }
}

/// Finds the first unit named `name`.
pub fn find_unit(units: &[ServiceUnit], name: &[char]) -> (r: Option<usize>)
    ensures
        match (r, unit_index(unit_views(units@), name@)) {
            (Some(a), Some(b)) => a == b,
            (None, None) => true,
            _ => false,
        },
{
    let ghost uv = unit_views(units@);
    let mut i: usize = 0;
    while i < units.len()
        invariant
            i <= units@.len(),
            uv == unit_views(units@),
            forall|j: int| 0 <= j < i ==> uv[j].name != name@,
        decreases units@.len() - i,
    {
        let n = chars_of(units[i].name.as_str());
        assert(uv[i as int].name == n@);
        if eq_chars(n.as_slice(), name) {
            proof {
                lemma_unit_index(uv, name@);
                match unit_index(uv, name@) {
                    Some(k) => {
                        if k < i {
                            assert(uv[k].name != name@);
                        }
                        if k > i {
                            assert(uv[i as int].name == name@);
                        }
                    },
                    None => {
                        assert(uv[i as int].name == name@);
                    },
                }
            }
            return Some(i);
        }
        i = i + 1;
    }
    proof {
        lemma_unit_index(uv, name@);
        match unit_index(uv, name@) {
            Some(k) => {
                assert(uv[k].name != name@);
            },
            None => {},
        }
    }
    None
}

/// Adds a discovered unit unless one of the same name was found before
/// (earlier unit directories take precedence).
pub fn add_unit(units: &mut Vec<ServiceUnit>, unit: ServiceUnit)
    ensures
        unit_index(unit_views(old(units)@), unit@.name) is Some ==> unit_views(final(units)@)
            == unit_views(old(units)@),
        unit_index(unit_views(old(units)@), unit@.name) is None ==> unit_views(final(units)@)
            == unit_views(old(units)@).push(unit@),
{
    let n = chars_of(unit.name.as_str());
    match find_unit(units.as_slice(), n.as_slice()) {
        Some(_) => {},
        None => {
            let ghost uv = unit@;
            units.push(unit);
            assert(unit_views(units@) =~= unit_views(old(units)@).push(uv));
        },
    }
}

/// The state of the depth-first ordering: the names in start order and
/// the names already visited.
pub struct DepState {
    pub ordered: Seq<Seq<char>>,
    pub visited: Seq<Seq<char>>,
}

/// The names of the units whose `Before` lists `name` and whose own names
/// are among `among`, in the order of the units.
pub open spec fn before_in(units: Seq<UnitView>, among: Seq<Seq<char>>, name: Seq<char>) -> Seq<Seq<char>> {
    units.filter(|u: UnitView| u.before.contains(name) && among.contains(u.name)).map_values(
        |u: UnitView| u.name,
    )
}

/// The names a unit is placed after: for a known unit its `After`, then
/// `Requires`, then `Wants` names, and, where `among` is given, then the
/// units among those names that name it in `Before`; none for an unknown
/// name.
pub open spec fn deps_of(units: Seq<UnitView>, among: Option<Seq<Seq<char>>>, name: Seq<char>) -> Seq<Seq<char>> {
    match unit_index(units, name) {
        Some(k) => if 0 <= k < units.len() {
            let pulled = units[k].after + units[k].requires + units[k].wants;
            match among {
                Some(c) => pulled + before_in(units, c, name),
                None => pulled,
            }
        } else {
            seq![]
        },
        None => seq![],
    }
}

/// Places `name` after its dependencies (`deps_of`), depth first: unless
/// visited, it is marked visited, then the known units among its
/// dependencies are placed in turn, then the name itself. `fuel` bounds
/// the depth of the search.
pub open spec fn resolve_one(
    fuel: nat,
    name: Seq<char>,
    units: Seq<UnitView>,
    among: Option<Seq<Seq<char>>>,
    st: DepState,
) -> DepState
    decreases fuel, 0int,
{
    if fuel == 0 || st.visited.contains(name) {
        st
    } else {
        let st1 = DepState { visited: st.visited.push(name), ..st };
        let st2 = resolve_list((fuel - 1) as nat, deps_of(units, among, name), 0, units, among, st1);
        DepState { ordered: st2.ordered.push(name), ..st2 }
    }
}

/// Places the known units among `deps[i..]`, in turn.
pub open spec fn resolve_list(
    fuel: nat,
    deps: Seq<Seq<char>>,
    i: int,
    units: Seq<UnitView>,
    among: Option<Seq<Seq<char>>>,
    st: DepState,
) -> DepState
    decreases fuel, deps.len() - i + 1,
{
    if i < 0 || i >= deps.len() {
        st
    } else {
        let st1 = if unit_index(units, deps[i]) is Some {
            resolve_one(fuel, deps[i], units, among, st)
        } else {
            st
        };
        resolve_list(fuel, deps, i + 1, units, among, st1)
    }
}

/// The names of the units whose `WantedBy` (or `RequiredBy`) lists the
/// target, in the order of the units.
pub open spec fn target_services(units: Seq<UnitView>, target: Seq<char>) -> Seq<Seq<char>> {
    units.filter(|u: UnitView| u.wanted_by.contains(target)).map_values(|u: UnitView| u.name)
}

/// The services a target starts, placed after their `After`, `Requires`
/// and `Wants` dependencies, which are pulled in; the depth bound is one
/// more than the number of units.
pub open spec fn pulled_order(units: Seq<UnitView>, target: Seq<char>) -> Seq<Seq<char>> {
    resolve_list(
        (units.len() + 1) as nat,
        target_services(units, target),
        0,
        units,
        None,
        DepState { ordered: seq![], visited: seq![] },
    ).ordered
}

/// The start order for a target: the units of `pulled_order`, each placed
/// after its `After`, `Requires` and `Wants` dependencies and after the
/// units among them that name it in `Before`.
pub open spec fn target_order(units: Seq<UnitView>, target: Seq<char>) -> Seq<Seq<char>> {
    resolve_list(
        (units.len() + 1) as nat,
        target_services(units, target),
        0,
        units,
        Some(pulled_order(units, target)),
        DepState { ordered: seq![], visited: seq![] },
    ).ordered
}

/// The `After`, `Requires` and `Wants` names of a known unit.
pub open spec fn pulled(units: Seq<UnitView>, name: Seq<char>) -> Seq<Seq<char>> {
    deps_of(units, None, name)
}

/// The names reached from `s` in at most `n` steps, a step going from a
/// unit to the known units among its `After`, `Requires` and `Wants`
/// names.
pub open spec fn reach(units: Seq<UnitView>, s: Seq<Seq<char>>, n: nat) -> Set<Seq<char>>
    decreases n,
{
    if n == 0 {
        s.to_set()
    } else {
        let r = reach(units, s, (n - 1) as nat);
        r.union(
            Set::new(
                |d: Seq<char>|
                    known(units, d) && exists|x: Seq<char>| r.contains(x) && pulled(units, x).contains(d),
            ),
        )
    }
}

/// `x` is reached from `s` in some number of steps (see `reach`).
pub open spec fn in_closure(units: Seq<UnitView>, s: Seq<Seq<char>>, x: Seq<char>) -> bool {
    exists|n: nat| #[trigger] reach(units, s, n).contains(x)
}

fn contains_name(v: &Vec<String>, name: &[char]) -> (r: bool)
    ensures
        r == views(v@).contains(name@),
{
    let ghost vv = views(v@);
    let mut i: usize = 0;
    while i < v.len()
        invariant
            i <= v@.len(),
            vv == views(v@),
            forall|j: int| 0 <= j < i ==> vv[j] != name@,
        decreases v@.len() - i,
    {
        let n = chars_of(v[i].as_str());
        assert(vv[i as int] == n@);
        if eq_chars(n.as_slice(), name) {
            return true;
        }
        i = i + 1;
    }
    false
}

pub open spec fn among_view(among: Option<&Vec<String>>) -> Option<Seq<Seq<char>>> {
    match among {
        Some(c) => Some(views(c@)),
        None => None,
    }
}

fn append_strings(out: &mut Vec<String>, src: &Vec<String>)
    ensures
        views(final(out)@) == views(old(out)@) + views(src@),
{
    let ghost base = views(out@);
    let mut i: usize = 0;
    while i < src.len()
        invariant
            i <= src@.len(),
            views(out@) == base + views(src@).take(i as int),
        decreases src@.len() - i,
    {
        let ghost before = views(out@);
        assert(views(src@)[i as int] == src@[i as int]@);
        push_string(out, src[i].clone());
        assert(views(src@).take(i + 1) =~= views(src@).take(i as int).push(views(src@)[i as int]));
        assert(views(out@) =~= base + views(src@).take(i + 1));
        i = i + 1;
    }
    assert(views(src@).take(src@.len() as int) =~= views(src@));
}

/// The names of the units whose `Before` lists `name` and whose names are
/// in `among` (see `before_in`).
fn units_before_in(units: &[ServiceUnit], among: &Vec<String>, name: &[char]) -> (r: Vec<String>)
    ensures
        views(r@) == before_in(unit_views(units@), views(among@), name@),
{
    let ghost uv = unit_views(units@);
    let mut out: Vec<String> = Vec::new();
    let ghost pred = |u: UnitView| u.before.contains(name@) && views(among@).contains(u.name);
    let mut i: usize = 0;
    assert(uv.take(0) =~= Seq::<UnitView>::empty());
    assert(views(out@) =~= Seq::<Seq<char>>::empty());
    while i < units.len()
        invariant
            i <= units@.len(),
            uv == unit_views(units@),
            pred == (|u: UnitView| u.before.contains(name@) && views(among@).contains(u.name)),
            views(out@) == uv.take(i as int).filter(pred).map_values(|u: UnitView| u.name),
        decreases units@.len() - i,
    {
        assert(uv[i as int] == units@[i as int]@);
        proof {
            reveal_with_fuel(Seq::filter, 2);
            assert(uv.take(i + 1).drop_last() =~= uv.take(i as int));
        }
        let n = chars_of(units[i].name.as_str());
        if contains_name(&units[i].before, name) && contains_name(among, n.as_slice()) {
            push_string(&mut out, units[i].name.clone());
        }
        assert(views(out@) =~= uv.take(i + 1).filter(pred).map_values(|u: UnitView| u.name));
        i = i + 1;
    }
    assert(uv.take(units@.len() as int) =~= uv);
    out
}

/// The names a unit is placed after (see `deps_of`).
fn dep_list(units: &[ServiceUnit], among: Option<&Vec<String>>, name: &[char]) -> (r: Vec<String>)
    ensures
        views(r@) == deps_of(unit_views(units@), among_view(among), name@),
{
    let ghost uv = unit_views(units@);
    let mut out: Vec<String> = Vec::new();
    assert(views(out@) =~= Seq::<Seq<char>>::empty());
    match find_unit(units, name) {
        Some(k) => {
            proof {
                lemma_unit_index(uv, name@);
            }
            let u = &units[k];
            assert(uv[k as int] == u@);
            append_strings(&mut out, &u.after);
            append_strings(&mut out, &u.requires);
            append_strings(&mut out, &u.wants);
            match among {
                Some(c) => {
                    let b = units_before_in(units, c, name);
                    append_strings(&mut out, &b);
                },
                None => {},
            }
        },
        None => {},
    }
    out
}

/// `resolve_one` on executable state.
fn resolve_deps(
    fuel: u128,
    name: &[char],
    units: &[ServiceUnit],
    among: Option<&Vec<String>>,
    ordered: &mut Vec<String>,
    visited: &mut Vec<String>,
)
    ensures
        ({
            let st = resolve_one(
                fuel as nat,
                name@,
                unit_views(units@),
                among_view(among),
                DepState { ordered: views(old(ordered)@), visited: views(old(visited)@) },
            );
            views(final(ordered)@) == st.ordered && views(final(visited)@) == st.visited
        }),
    decreases fuel, 0int,
{
    if fuel == 0 || contains_name(visited, name) {
        return;
    }
    push_string(visited, string_of(name));
    let ds = dep_list(units, among, name);
    resolve_list_exec(fuel - 1, &ds, units, among, ordered, visited);
    push_string(ordered, string_of(name));
}

/// `resolve_list` (from the start) on executable state.
fn resolve_list_exec(
    fuel: u128,
    deps: &Vec<String>,
    units: &[ServiceUnit],
    among: Option<&Vec<String>>,
    ordered: &mut Vec<String>,
    visited: &mut Vec<String>,
)
    ensures
        ({
            let st = resolve_list(
                fuel as nat,
                views(deps@),
                0,
                unit_views(units@),
                among_view(among),
                DepState { ordered: views(old(ordered)@), visited: views(old(visited)@) },
            );
            views(final(ordered)@) == st.ordered && views(final(visited)@) == st.visited
        }),
    decreases fuel, deps@.len() + 1,
{
    let ghost dv = views(deps@);
    let ghost uv = unit_views(units@);
    let ghost st0 = DepState { ordered: views(ordered@), visited: views(visited@) };
    let mut i: usize = 0;
    while i < deps.len()
        invariant
            i <= deps@.len(),
            dv == views(deps@),
            uv == unit_views(units@),
            resolve_list(fuel as nat, dv, i as int, uv, among_view(among), DepState { ordered: views(ordered@), visited: views(visited@) })
                == resolve_list(fuel as nat, dv, 0, uv, among_view(among), st0),
        decreases deps@.len() - i,
    {
        let d = chars_of(deps[i].as_str());
        assert(dv[i as int] == d@);
        if find_unit(units, d.as_slice()).is_some() {
            resolve_deps(fuel, d.as_slice(), units, among, ordered, visited);
        }
        i = i + 1;
    }
}

fn target_services_exec(units: &[ServiceUnit], target: &str) -> (r: Vec<String>)
    ensures
        views(r@) == target_services(unit_views(units@), target@),
{
    let ghost uv = unit_views(units@);
    let t = chars_of(target);
    let mut services: Vec<String> = Vec::new();
    let ghost pred = |u: UnitView| u.wanted_by.contains(target@);
    let mut i: usize = 0;
    assert(uv.take(0) =~= Seq::<UnitView>::empty());
    assert(views(services@) =~= Seq::<Seq<char>>::empty());
    while i < units.len()
        invariant
            i <= units@.len(),
            uv == unit_views(units@),
            t@ == target@,
            pred == (|u: UnitView| u.wanted_by.contains(target@)),
            views(services@) == uv.take(i as int).filter(pred).map_values(|u: UnitView| u.name),
        decreases units@.len() - i,
    {
        assert(uv[i as int] == units@[i as int]@);
        proof {
            reveal_with_fuel(Seq::filter, 2);
            assert(uv.take(i + 1).drop_last() =~= uv.take(i as int));
        }
        if contains_name(&units[i].wanted_by, t.as_slice()) {
            push_string(&mut services, units[i].name.clone());
        }
        assert(views(services@) =~= uv.take(i + 1).filter(pred).map_values(|u: UnitView| u.name));
        i = i + 1;
    }
    assert(uv.take(units@.len() as int) =~= uv);
    services
}

/// The start order of the services of a target (see `target_order`): the
/// services the target wants and, pulled in, the known units they name in
/// `After`, `Requires` and `Wants`, transitively, and no other; each once.
pub fn resolve_target(units: &[ServiceUnit], target: &str) -> (r: Vec<String>)
    ensures
        views(r@) == target_order(unit_views(units@), target@),
        views(r@).no_duplicates(),
        forall|x: Seq<char>|
            views(r@).contains(x) <==> in_closure(
                unit_views(units@),
                target_services(unit_views(units@), target@),
                x,
            ),
{
    let services = target_services_exec(units, target);
    let mut pulled_v: Vec<String> = Vec::new();
    let mut seen: Vec<String> = Vec::new();
    assert(views(pulled_v@) =~= Seq::<Seq<char>>::empty());
    assert(views(seen@) =~= Seq::<Seq<char>>::empty());
    resolve_list_exec((units.len() as u128) + 1, &services, units, None, &mut pulled_v, &mut seen);
    let mut ordered: Vec<String> = Vec::new();
    let mut visited: Vec<String> = Vec::new();
    assert(views(ordered@) =~= Seq::<Seq<char>>::empty());
    assert(views(visited@) =~= Seq::<Seq<char>>::empty());
    resolve_list_exec((units.len() as u128) + 1, &services, units, Some(&pulled_v), &mut ordered, &mut visited);
    proof {
        lemma_target_order_distinct(unit_views(units@), target@);
        lemma_target_order_closure(unit_views(units@), target@);
    }
    ordered
}

// ---------------------------------------------------------------------------
// Starting and restarting services
// ---------------------------------------------------------------------------

/// One step of starting a service.
pub enum StartStep {
    /// Run a command and wait; when it fails and `must_succeed` holds, the
    /// start is abandoned (no process is tracked).
    Run(String, bool),
    /// Start the main process in the background and track it.
    Spawn(String),
}

pub enum StartView {
    Run(Seq<char>, bool),
    Spawn(Seq<char>),
}

impl View for StartStep {
    type V = StartView;

    open spec fn view(&self) -> StartView {
        match self {
            StartStep::Run(s, b) => StartView::Run(s@, *b),
            StartStep::Spawn(s) => StartView::Spawn(s@),
        }
    }
}

/// The command of an `ExecStartPre` line: without its leading `-`s; the
/// command may fail when the line starts with `-`.
pub open spec fn pre_step(cmd: Seq<char>) -> StartView {
    StartView::Run(trim_char_start(cmd, '-'), !starts_with(cmd, "-"@))
}

/// Starting a unit: each `ExecStartPre` command in turn, then `ExecStart`
/// (spawned and tracked for a simple service, run and waited for
/// otherwise), then each `ExecStartPost` command, whose failures are
/// ignored.
pub open spec fn start_spec(u: UnitView) -> Seq<StartView> {
    u.exec_start_pre.map_values(|c: Seq<char>| pre_step(c)) + seq![
        if u.service_type == ServiceType::Simple {
            StartView::Spawn(u.exec_start)
        } else {
            StartView::Run(u.exec_start, false)
        },
    ] + u.exec_start_post.map_values(|c: Seq<char>| StartView::Run(c, false))
}

fn trim_dashes(s: &[char]) -> (r: Vec<char>)
    ensures
        r@ == trim_char_start(s@, '-'),
{
    let mut a: usize = 0;
    assert(s@.skip(0) =~= s@);
    while a < s.len() && s[a] == '-'
        invariant
            a <= s@.len(),
            trim_char_start(s@.skip(a as int), '-') == trim_char_start(s@, '-'),
        decreases s@.len() - a,
    {
        assert(s@.skip(a as int).drop_first() =~= s@.skip(a + 1));
        a = a + 1;
    }
    let r = slice_chars(s, a, s.len());
    assert(r@ =~= s@.skip(a as int));
    r
}

/// Decides the steps of starting a unit (see `start_spec`).
pub fn start_plan(u: &ServiceUnit) -> (r: Vec<StartStep>)
    ensures
        r@.map_values(|s: StartStep| s@) == start_spec(u@),
{
    let mut out: Vec<StartStep> = Vec::new();
    let ghost pre = views(u.exec_start_pre@);
    let mut i: usize = 0;
    assert(out@.map_values(|s: StartStep| s@) =~= pre.take(0).map_values(|c: Seq<char>| pre_step(c)));
    while i < u.exec_start_pre.len()
        invariant
            i <= u.exec_start_pre@.len(),
            pre == views(u.exec_start_pre@),
            out@.map_values(|s: StartStep| s@) == pre.take(i as int).map_values(|c: Seq<char>| pre_step(c)),
        decreases u.exec_start_pre@.len() - i,
    {
        let c = chars_of(u.exec_start_pre[i].as_str());
        assert(pre[i as int] == c@);
        let cmd = trim_dashes(c.as_slice());
        let must = !starts_with_lit(c.as_slice(), "-");
        let ghost before = out@.map_values(|s: StartStep| s@);
        out.push(StartStep::Run(string_of(cmd.as_slice()), must));
        assert(out@.map_values(|s: StartStep| s@) =~= before.push(pre_step(c@)));
        assert(pre.take(i + 1) =~= pre.take(i as int).push(pre[i as int]));
        assert(pre.take(i + 1).map_values(|c: Seq<char>| pre_step(c)) =~= pre.take(i as int).map_values(|c: Seq<char>| pre_step(c)).push(pre_step(c@)));
        i = i + 1;
    }
    assert(pre.take(pre.len() as int) =~= pre);
    let ghost mid = out@.map_values(|s: StartStep| s@);
    let main = if u.service_type == ServiceType::Simple {
        StartStep::Spawn(u.exec_start.clone())
    } else {
        StartStep::Run(u.exec_start.clone(), false)
    };
    let ghost mv = main@;
    out.push(main);
    assert(out@.map_values(|s: StartStep| s@) =~= mid.push(mv));
    let ghost post = views(u.exec_start_post@);
    let ghost base = out@.map_values(|s: StartStep| s@);
    let mut j: usize = 0;
    assert(base =~= base + post.take(0).map_values(|c: Seq<char>| StartView::Run(c, false)));
    while j < u.exec_start_post.len()
        invariant
            j <= u.exec_start_post@.len(),
            post == views(u.exec_start_post@),
            out@.map_values(|s: StartStep| s@) == base + post.take(j as int).map_values(
                |c: Seq<char>| StartView::Run(c, false),
            ),
        decreases u.exec_start_post@.len() - j,
    {
        let ghost before = out@.map_values(|s: StartStep| s@);
        assert(post[j as int] == u.exec_start_post@[j as int]@);
        out.push(StartStep::Run(u.exec_start_post[j].clone(), false));
        assert(out@.map_values(|s: StartStep| s@) =~= before.push(StartView::Run(post[j as int], false)));
        assert(post.take(j + 1) =~= post.take(j as int).push(post[j as int]));
        assert(post.take(j + 1).map_values(|c: Seq<char>| StartView::Run(c, false)) =~= post.take(j as int).map_values(|c: Seq<char>| StartView::Run(c, false)).push(StartView::Run(post[j as int], false)));
        j = j + 1;
    }
    assert(post.take(post.len() as int) =~= post);
    assert(out@.map_values(|s: StartStep| s@) =~= start_spec(u@));
    out
}

/// When a tracked service process exits: whether it restarts (always, or on
/// failure when it did not exit with status 0), and if so the new restart
/// count, a pause of 10 seconds when the count passes 10 (the count then
/// starting again from 0), and the unit's restart delay.
pub open spec fn restart_spec(policy: RestartPolicy, exited_ok: bool, count: u32, restart_sec: u64) -> Option<(u32, u64, u64)> {
    let restart = match policy {
        RestartPolicy::Always => true,
        RestartPolicy::OnFailure => !exited_ok,
        RestartPolicy::No => false,
    };
    if !restart {
        None
    } else if count + 1 > 10 {
        Some((0, 10, restart_sec))
    } else {
        Some(((count + 1) as u32, 0, restart_sec))
    }
}

/// Trusted: libc's `WIFEXITED` on Linux, `(status & 0x7f) == 0`.
#[verifier::external_body]
fn wifexited(status: i32) -> (r: bool)
    ensures
        r == (status & 0x7f == 0),
{
    libc::WIFEXITED(status)
}

/// Trusted: libc's `WEXITSTATUS` on Linux, `(status >> 8) & 0xff`.
#[verifier::external_body]
fn wexitstatus(status: i32) -> (r: i32)
    ensures
        r == (status >> 8) & 0xff,
{
    libc::WEXITSTATUS(status)
}

/// Whether a wait status tells of a process that exited with status 0.
pub fn exited_ok(status: i32) -> (r: bool)
    ensures
        r == (status & 0x7f == 0 && (status >> 8) & 0xff == 0),
{
    wifexited(status) && wexitstatus(status) == 0
}

/// Decides whether and how an exited service restarts (see
/// `restart_spec`).
pub fn restart_plan(policy: RestartPolicy, exited_ok: bool, count: u32, restart_sec: u64) -> (r: Option<(u32, u64, u64)>)
    ensures
        r == restart_spec(policy, exited_ok, count, restart_sec),
{
    let restart = match policy {
        RestartPolicy::Always => true,
        RestartPolicy::OnFailure => !exited_ok,
        RestartPolicy::No => false,
    };
    if !restart {
        None
    } else if count >= 10 {
        Some((0, 10, restart_sec))
    } else {
        Some((count + 1, 0, restart_sec))
    }
}

/// What follows the exit of a service's tracked process with wait status
/// `status` (see `restart_spec`): it is started again exactly where its
/// policy is `Always`, or `OnFailure` and the process did not exit with
/// status 0; then the new count, the pause (10 s once the restarts pass
/// 10) and the restart interval.
pub fn exit_step(policy: RestartPolicy, status: i32, count: u32, restart_sec: u64) -> (r: Option<(u32, u64, u64)>)
    ensures
        r == restart_spec(policy, status & 0x7f == 0 && (status >> 8) & 0xff == 0, count, restart_sec),
        r is Some <==> (policy == RestartPolicy::Always || (policy == RestartPolicy::OnFailure && !(
        status & 0x7f == 0 && (status >> 8) & 0xff == 0))),
        r matches Some((c, pause, delay)) ==> delay == restart_sec && (pause == 10 <==> count >= 10)
            && (pause == 0 <==> count < 10) && c == if count >= 10 {
            0
        } else {
            count + 1
        },
{
    restart_plan(policy, exited_ok(status), count, restart_sec)
}

/// What `init` does when it is not process 1.
pub enum Systemctl {
    /// No argument: print the usage, status 1.
    Usage,
    /// `poweroff` or `0`: send SIGUSR1 to process 1.
    Poweroff,
    /// `reboot` or `6`: send SIGUSR2 to process 1.
    Reboot,
    /// Anything else: status 1.
    Unsupported(String),
}

/// Decides what `init args...` does when not process 1.
pub fn handle_systemctl(args: &[String]) -> (r: Systemctl)
    ensures
        args@.len() == 0 ==> r is Usage,
        args@.len() > 0 ==> {
            let a = args@[0]@;
            if a == "poweroff"@ || a == "0"@ {
                r is Poweroff
            } else if a == "reboot"@ || a == "6"@ {
                r is Reboot
            } else {
                r matches Systemctl::Unsupported(s) && s@ == a
            }
        },
{
    if args.len() == 0 {
        return Systemctl::Usage;
    }
    let a = chars_of(args[0].as_str());
    if eq_lit(a.as_slice(), "poweroff") || eq_lit(a.as_slice(), "0") {
        Systemctl::Poweroff
    } else if eq_lit(a.as_slice(), "reboot") || eq_lit(a.as_slice(), "6") {
        Systemctl::Reboot
    } else {
        Systemctl::Unsupported(args[0].clone())
    }
}

/// The target to reach: the first `--target=` argument's value (every
/// leading `--target=` removed), or multi-user.target.
pub fn target_name(args: &[String]) -> (r: String)
    ensures
        r@ == match super::option_value_spec(views(args@), "--target="@) {
            Some(v) => v,
            None => "multi-user.target"@,
        },
{
    match super::option_value(args, "--target=") {
        Some(v) => v,
        None => to_string("multi-user.target"),
    }
}


/// The ordering state is sound: no name is ordered twice, and every ordered
/// name has been visited.
pub open spec fn dep_sound(st: DepState) -> bool {
    &&& st.ordered.no_duplicates()
    &&& forall|x: Seq<char>| st.ordered.contains(x) ==> st.visited.contains(x)
}

/// From state `a` to state `b` the visited names only grow, and every name
/// ordered in `b` was ordered in `a` or not yet visited there.
pub open spec fn dep_grows(a: DepState, b: DepState) -> bool {
    &&& forall|x: Seq<char>| a.visited.contains(x) ==> b.visited.contains(x)
    &&& forall|x: Seq<char>| b.ordered.contains(x) ==> a.ordered.contains(x) || !a.visited.contains(x)
}

proof fn lemma_push_contains(s: Seq<Seq<char>>, x: Seq<char>)
    ensures
        forall|y: Seq<char>| s.push(x).contains(y) <==> (s.contains(y) || y == x),
{
    let t = s.push(x);
    assert forall|y: Seq<char>| t.contains(y) implies s.contains(y) || y == x by {
        let k = choose|k: int| 0 <= k < t.len() && t[k] == y;
        if k < s.len() {
            assert(s[k] == y);
        }
    }
    assert forall|y: Seq<char>| s.contains(y) || y == x implies t.contains(y) by {
        if y == x {
            assert(t[s.len() as int] == y);
        } else {
            let k = choose|k: int| 0 <= k < s.len() && s[k] == y;
            assert(t[k] == y);
        }
    }
}

proof fn lemma_push_new(s: Seq<Seq<char>>, x: Seq<char>)
    requires
        s.no_duplicates(),
        !s.contains(x),
    ensures
        s.push(x).no_duplicates(),
{
    let t = s.push(x);
    assert forall|i: int, j: int| 0 <= i < t.len() && 0 <= j < t.len() && i != j implies t[i] != t[j] by {
        if i == s.len() as int {
            assert(s[j] == t[j]);
        } else if j == s.len() as int {
            assert(s[i] == t[i]);
        } else {
            assert(s[i] == t[i] && s[j] == t[j]);
        }
    }
}

proof fn lemma_resolve_one_sound(
    fuel: nat,
    name: Seq<char>,
    units: Seq<UnitView>,
    among: Option<Seq<Seq<char>>>,
    st: DepState,
)
    requires
        dep_sound(st),
    ensures
        dep_sound(resolve_one(fuel, name, units, among, st)),
        dep_grows(st, resolve_one(fuel, name, units, among, st)),
    decreases fuel, 0int,
{
    if fuel == 0 || st.visited.contains(name) {
    } else {
        let st1 = DepState { visited: st.visited.push(name), ..st };
        lemma_push_contains(st.visited, name);
        let ds = deps_of(units, among, name);
        lemma_resolve_list_sound((fuel - 1) as nat, ds, 0, units, among, st1);
        let st2 = resolve_list((fuel - 1) as nat, ds, 0, units, among, st1);
        assert(!st2.ordered.contains(name));
        lemma_push_new(st2.ordered, name);
        lemma_push_contains(st2.ordered, name);
        let r = resolve_one(fuel, name, units, among, st);
        assert(r.visited == st2.visited && r.ordered == st2.ordered.push(name));
        assert forall|x: Seq<char>| st.visited.contains(x) implies r.visited.contains(x) by {
            assert(st1.visited.contains(x));
        }
        assert forall|x: Seq<char>| r.ordered.contains(x) implies st.ordered.contains(x) || !st.visited.contains(x) by {
            if x != name {
                assert(st2.ordered.contains(x));
                if !st1.ordered.contains(x) {
                    assert(!st1.visited.contains(x));
                }
            }
        }
    }
}

proof fn lemma_resolve_list_sound(
    fuel: nat,
    deps: Seq<Seq<char>>,
    i: int,
    units: Seq<UnitView>,
    among: Option<Seq<Seq<char>>>,
    st: DepState,
)
    requires
        dep_sound(st),
    ensures
        dep_sound(resolve_list(fuel, deps, i, units, among, st)),
        dep_grows(st, resolve_list(fuel, deps, i, units, among, st)),
    decreases fuel, deps.len() - i + 1,
{
    if i < 0 || i >= deps.len() {
    } else {
        let st1 = if unit_index(units, deps[i]) is Some {
            lemma_resolve_one_sound(fuel, deps[i], units, among, st);
            resolve_one(fuel, deps[i], units, among, st)
        } else {
            st
        };
        lemma_resolve_list_sound(fuel, deps, i + 1, units, among, st1);
    }
}

/// Starting a target starts each service at most once: the start order
/// holds no name twice.
pub proof fn lemma_target_order_distinct(units: Seq<UnitView>, target: Seq<char>)
    ensures
        target_order(units, target).no_duplicates(),
{
    lemma_resolve_list_sound(
        (units.len() + 1) as nat,
        target_services(units, target),
        0,
        units,
        Some(pulled_order(units, target)),
        DepState { ordered: seq![], visited: seq![] },
    );
}

/// A name is that of a known unit.
pub open spec fn known(units: Seq<UnitView>, name: Seq<char>) -> bool {
    unit_index(units, name) is Some
}

/// Visited and not yet ordered: on the path being searched.
pub open spec fn in_progress(st: DepState, x: Seq<char>) -> bool {
    st.visited.contains(x) && !st.ordered.contains(x)
}

/// Every known dependency of an ordered name has been visited.
pub open spec fn finished_closed(st: DepState, units: Seq<UnitView>, among: Option<Seq<Seq<char>>>) -> bool {
    forall|x: Seq<char>, i: int|
        #![trigger st.ordered.contains(x), deps_of(units, among, x)[i]]
        st.ordered.contains(x) && 0 <= i < deps_of(units, among, x).len() && known(units, deps_of(units, among, x)[i])
            ==> st.visited.contains(deps_of(units, among, x)[i])
}

/// Distinct names of known units are no more than the units.
proof fn lemma_known_distinct_bound(units: Seq<UnitView>, s: Seq<Seq<char>>)
    requires
        s.no_duplicates(),
        forall|j: int| 0 <= j < s.len() ==> known(units, #[trigger] s[j]),
    ensures
        s.len() <= units.len(),
{
    let names = units.map_values(|u: UnitView| u.name);
    assert forall|x: Seq<char>| s.to_set().contains(x) implies names.to_set().contains(x) by {
        let j = choose|j: int| 0 <= j < s.len() && s[j] == x;
        lemma_unit_index(units, x);
        let k = unit_index(units, x)->0;
        assert(names[k] == x);
    }
    seq_to_set_is_finite(names);
    lemma_len_subset(s.to_set(), names.to_set());
    s.unique_seq_to_set();
    names.lemma_cardinality_of_set();
}

/// The search stack: distinct known names, each on the path being
/// searched, with enough fuel left for the rest of the units.
pub open spec fn stack_ok(stack: Seq<Seq<char>>, fuel: nat, units: Seq<UnitView>, st: DepState) -> bool {
    &&& stack.no_duplicates()
    &&& forall|j: int| 0 <= j < stack.len() ==> known(units, #[trigger] stack[j]) && in_progress(st, stack[j])
    &&& fuel + stack.len() >= units.len() + 1
}

proof fn lemma_stack_grows(stack: Seq<Seq<char>>, fuel: nat, units: Seq<UnitView>, a: DepState, b: DepState)
    requires
        stack_ok(stack, fuel, units, a),
        dep_grows(a, b),
    ensures
        stack_ok(stack, fuel, units, b),
{
    assert forall|j: int| 0 <= j < stack.len() implies known(units, #[trigger] stack[j]) && in_progress(b, stack[j]) by {
        assert(in_progress(a, stack[j]));
    }
}

proof fn lemma_resolve_one_complete(
    fuel: nat,
    name: Seq<char>,
    units: Seq<UnitView>,
    among: Option<Seq<Seq<char>>>,
    st: DepState,
    stack: Seq<Seq<char>>,
)
    requires
        dep_sound(st),
        known(units, name),
        stack_ok(stack, fuel, units, st),
        finished_closed(st, units, among),
    ensures
        resolve_one(fuel, name, units, among, st).visited.contains(name),
        finished_closed(resolve_one(fuel, name, units, among, st), units, among),
        forall|x: Seq<char>| #[trigger] in_progress(resolve_one(fuel, name, units, among, st), x) ==> in_progress(st, x),
    decreases fuel, 0int,
{
    if st.visited.contains(name) {
    } else {
        assert(!stack.contains(name)) by {
            if stack.contains(name) {
                let j = choose|j: int| 0 <= j < stack.len() && stack[j] == name;
                assert(in_progress(st, stack[j]));
            }
        }
        let s2 = stack.push(name);
        lemma_push_new(stack, name);
        assert forall|j: int| 0 <= j < s2.len() implies known(units, #[trigger] s2[j]) by {
            if j < stack.len() {
                assert(s2[j] == stack[j]);
            }
        }
        lemma_known_distinct_bound(units, s2);
        assert(fuel > 0);
        let st1 = DepState { visited: st.visited.push(name), ..st };
        lemma_push_contains(st.visited, name);
        assert(!st.ordered.contains(name));
        assert(stack_ok(s2, (fuel - 1) as nat, units, st1)) by {
            assert forall|j: int| 0 <= j < s2.len() implies known(units, #[trigger] s2[j]) && in_progress(st1, s2[j]) by {
                if j < stack.len() {
                    assert(s2[j] == stack[j]);
                    assert(in_progress(st, stack[j]));
                }
            }
        }
        assert(finished_closed(st1, units, among)) by {
            assert forall|x: Seq<char>, i: int|
                #![trigger st1.ordered.contains(x), deps_of(units, among, x)[i]]
                st1.ordered.contains(x) && 0 <= i < deps_of(units, among, x).len() && known(units, deps_of(units, among, x)[i])
                    implies st1.visited.contains(deps_of(units, among, x)[i]) by {
                assert(st.visited.contains(deps_of(units, among, x)[i]));
            }
        }
        let ds = deps_of(units, among, name);
        let f = (fuel - 1) as nat;
        lemma_resolve_list_complete(f, ds, 0, units, among, st1, s2);
        lemma_resolve_list_sound(f, ds, 0, units, among, st1);
        let st2 = resolve_list(f, ds, 0, units, among, st1);
        let r = resolve_one(fuel, name, units, among, st);
        assert(r.visited == st2.visited && r.ordered == st2.ordered.push(name));
        lemma_push_contains(st2.ordered, name);
        assert(st2.visited.contains(name));
        assert(finished_closed(r, units, among)) by {
            assert forall|x: Seq<char>, i: int|
                #![trigger r.ordered.contains(x), deps_of(units, among, x)[i]]
                r.ordered.contains(x) && 0 <= i < deps_of(units, among, x).len() && known(units, deps_of(units, among, x)[i])
                    implies r.visited.contains(deps_of(units, among, x)[i]) by {
                if x == name {
                    assert(st2.visited.contains(ds[i]));
                } else {
                    assert(st2.ordered.contains(x));
                }
            }
        }
        assert forall|x: Seq<char>| #[trigger] in_progress(r, x) implies in_progress(st, x) by {
            if x != name {
                assert(st2.ordered.contains(x) ==> r.ordered.contains(x));
                assert(in_progress(st2, x));
                assert(in_progress(st1, x));
            }
        }
    }
}

proof fn lemma_resolve_list_complete(
    fuel: nat,
    deps: Seq<Seq<char>>,
    i: int,
    units: Seq<UnitView>,
    among: Option<Seq<Seq<char>>>,
    st: DepState,
    stack: Seq<Seq<char>>,
)
    requires
        dep_sound(st),
        stack_ok(stack, fuel, units, st),
        finished_closed(st, units, among),
    ensures
        forall|j: int|
            0 <= i <= j < deps.len() && known(units, #[trigger] deps[j]) ==> resolve_list(fuel, deps, i, units, among, st).visited.contains(deps[j]),
        finished_closed(resolve_list(fuel, deps, i, units, among, st), units, among),
        forall|x: Seq<char>| #[trigger] in_progress(resolve_list(fuel, deps, i, units, among, st), x) ==> in_progress(st, x),
    decreases fuel, deps.len() - i + 1,
{
    if i < 0 || i >= deps.len() {
    } else {
        let st1 = if known(units, deps[i]) {
            lemma_resolve_one_complete(fuel, deps[i], units, among, st, stack);
            lemma_resolve_one_sound(fuel, deps[i], units, among, st);
            resolve_one(fuel, deps[i], units, among, st)
        } else {
            st
        };
        if known(units, deps[i]) {
            lemma_stack_grows(stack, fuel, units, st, st1);
        }
        lemma_resolve_list_complete(fuel, deps, i + 1, units, among, st1, stack);
        lemma_resolve_list_sound(fuel, deps, i + 1, units, among, st1);
    }
}

/// The known names among `deps_of` that lie in `r` stay in `r`.
pub open spec fn closed_in(units: Seq<UnitView>, among: Option<Seq<Seq<char>>>, r: Set<Seq<char>>) -> bool {
    forall|x: Seq<char>, i: int|
        #![trigger r.contains(x), deps_of(units, among, x)[i]]
        r.contains(x) && 0 <= i < deps_of(units, among, x).len() && known(units, deps_of(units, among, x)[i])
            ==> r.contains(deps_of(units, among, x)[i])
}

proof fn lemma_resolve_one_within(
    fuel: nat,
    name: Seq<char>,
    units: Seq<UnitView>,
    among: Option<Seq<Seq<char>>>,
    st: DepState,
    r: Set<Seq<char>>,
)
    requires
        closed_in(units, among, r),
        r.contains(name),
        forall|x: Seq<char>| st.visited.contains(x) ==> r.contains(x),
    ensures
        forall|x: Seq<char>| resolve_one(fuel, name, units, among, st).visited.contains(x) ==> r.contains(x),
    decreases fuel, 0int,
{
    if fuel == 0 || st.visited.contains(name) {
    } else {
        let st1 = DepState { visited: st.visited.push(name), ..st };
        lemma_push_contains(st.visited, name);
        let ds = deps_of(units, among, name);
        assert forall|j: int| 0 <= j < ds.len() && known(units, #[trigger] ds[j]) implies r.contains(ds[j]) by {}
        lemma_resolve_list_within((fuel - 1) as nat, ds, 0, units, among, st1, r);
    }
}

proof fn lemma_resolve_list_within(
    fuel: nat,
    deps: Seq<Seq<char>>,
    i: int,
    units: Seq<UnitView>,
    among: Option<Seq<Seq<char>>>,
    st: DepState,
    r: Set<Seq<char>>,
)
    requires
        closed_in(units, among, r),
        forall|j: int| 0 <= i <= j < deps.len() && known(units, #[trigger] deps[j]) ==> r.contains(deps[j]),
        forall|x: Seq<char>| st.visited.contains(x) ==> r.contains(x),
    ensures
        forall|x: Seq<char>| resolve_list(fuel, deps, i, units, among, st).visited.contains(x) ==> r.contains(x),
    decreases fuel, deps.len() - i + 1,
{
    if i < 0 || i >= deps.len() {
    } else {
        let st1 = if known(units, deps[i]) {
            lemma_resolve_one_within(fuel, deps[i], units, among, st, r);
            resolve_one(fuel, deps[i], units, among, st)
        } else {
            st
        };
        lemma_resolve_list_within(fuel, deps, i + 1, units, among, st1, r);
    }
}

/// The names reached from `s` (see `in_closure`), as a set.
pub open spec fn closure_set(units: Seq<UnitView>, s: Seq<Seq<char>>) -> Set<Seq<char>> {
    Set::new(|x: Seq<char>| in_closure(units, s, x))
}

proof fn lemma_reach_step(units: Seq<UnitView>, s: Seq<Seq<char>>, n: nat, x: Seq<char>, d: Seq<char>)
    requires
        reach(units, s, n).contains(x),
        known(units, d),
        pulled(units, x).contains(d),
    ensures
        reach(units, s, n + 1).contains(d),
{
    assert(reach(units, s, (n + 1) as nat) == reach(units, s, n).union(
        Set::new(
            |d: Seq<char>|
                known(units, d) && exists|x: Seq<char>| reach(units, s, n).contains(x) && pulled(units, x).contains(d),
        ),
    ));
}

/// The pulled part of `deps_of` comes first: a unit's `After`, `Requires`
/// and `Wants` names are the first ones of its dependencies.
proof fn lemma_pulled_prefix(units: Seq<UnitView>, among: Option<Seq<Seq<char>>>, x: Seq<char>)
    ensures
        pulled(units, x).len() <= deps_of(units, among, x).len(),
        forall|i: int| 0 <= i < pulled(units, x).len() ==> deps_of(units, among, x)[i] == #[trigger] pulled(units, x)[i],
{
}

/// The closure is closed under the dependencies where `among` lies in it.
proof fn lemma_closure_closed(units: Seq<UnitView>, s: Seq<Seq<char>>, among: Option<Seq<Seq<char>>>)
    requires
        among matches Some(c) ==> forall|y: Seq<char>| c.contains(y) ==> in_closure(units, s, y),
    ensures
        closed_in(units, among, closure_set(units, s)),
{
    let r = closure_set(units, s);
    assert forall|x: Seq<char>, i: int|
        #![trigger r.contains(x), deps_of(units, among, x)[i]]
        r.contains(x) && 0 <= i < deps_of(units, among, x).len() && known(units, deps_of(units, among, x)[i])
            implies r.contains(deps_of(units, among, x)[i]) by {
        let d = deps_of(units, among, x)[i];
        let n = choose|n: nat| #[trigger] reach(units, s, n).contains(x);
        lemma_pulled_prefix(units, among, x);
        let p = pulled(units, x);
        if i < p.len() {
            assert(p[i] == d);
            assert(p.contains(d));
            lemma_reach_step(units, s, n, x, d);
            assert(in_closure(units, s, d));
        } else {
            let c = among->0;
            lemma_unit_index(units, x);
            let k = unit_index(units, x)->0;
            let bi = before_in(units, c, x);
            let pred = |u: UnitView| u.before.contains(x) && c.contains(u.name);
            let fl = units.filter(pred);
            assert(deps_of(units, among, x) == p + bi);
            assert(d == bi[i - p.len()]);
            assert(d == fl[i - p.len()].name);
            units.lemma_filter_pred(pred, i - p.len());
            assert(c.contains(d));
        }
    }
}

/// A depth-first placing from the services wanted, with enough fuel,
/// places exactly the names reached from them by `After`, `Requires` and
/// `Wants`, where `among` lies in those names.
proof fn lemma_order_closure(units: Seq<UnitView>, s: Seq<Seq<char>>, among: Option<Seq<Seq<char>>>)
    requires
        forall|j: int| 0 <= j < s.len() ==> known(units, #[trigger] s[j]),
        among matches Some(c) ==> forall|y: Seq<char>| c.contains(y) ==> in_closure(units, s, y),
    ensures
        forall|x: Seq<char>|
            resolve_list(
                (units.len() + 1) as nat,
                s,
                0,
                units,
                among,
                DepState { ordered: seq![], visited: seq![] },
            ).ordered.contains(x) <==> in_closure(units, s, x),
{
    let st0 = DepState { ordered: seq![], visited: seq![] };
    let f = (units.len() + 1) as nat;
    let r = resolve_list(f, s, 0, units, among, st0);
    let cs = closure_set(units, s);
    // Nothing outside the closure.
    lemma_closure_closed(units, s, among);
    assert forall|j: int| 0 <= j < s.len() && known(units, #[trigger] s[j]) implies cs.contains(s[j]) by {
        assert(reach(units, s, 0).contains(s[j]));
    }
    lemma_resolve_list_within(f, s, 0, units, among, st0, cs);
    lemma_resolve_list_sound(f, s, 0, units, among, st0);
    // Everything in the closure.
    assert(stack_ok(seq![], f, units, st0));
    lemma_resolve_list_complete(f, s, 0, units, among, st0, seq![]);
    assert forall|x: Seq<char>| r.visited.contains(x) implies r.ordered.contains(x) by {
        if !r.ordered.contains(x) {
            assert(in_progress(r, x));
            assert(!st0.visited.contains(x));
        }
    }
    assert forall|x: Seq<char>| in_closure(units, s, x) implies r.ordered.contains(x) by {
        let n = choose|n: nat| #[trigger] reach(units, s, n).contains(x);
        lemma_reach_ordered(units, s, among, r, n);
    }
    assert forall|x: Seq<char>| r.ordered.contains(x) implies in_closure(units, s, x) by {
        assert(cs.contains(x));
    }
}

proof fn lemma_reach_ordered(units: Seq<UnitView>, s: Seq<Seq<char>>, among: Option<Seq<Seq<char>>>, r: DepState, n: nat)
    requires
        forall|j: int| 0 <= j < s.len() ==> r.visited.contains(#[trigger] s[j]),
        forall|x: Seq<char>| r.visited.contains(x) ==> r.ordered.contains(x),
        finished_closed(r, units, among),
    ensures
        forall|x: Seq<char>| reach(units, s, n).contains(x) ==> r.ordered.contains(x),
    decreases n,
{
    if n == 0 {
        assert forall|x: Seq<char>| reach(units, s, n).contains(x) implies r.ordered.contains(x) by {
            let j = choose|j: int| 0 <= j < s.len() && s[j] == x;
            assert(r.visited.contains(s[j]));
        }
    } else {
        let m = (n - 1) as nat;
        lemma_reach_ordered(units, s, among, r, m);
        assert forall|d: Seq<char>| reach(units, s, n).contains(d) implies r.ordered.contains(d) by {
            if !reach(units, s, m).contains(d) {
                let x = choose|x: Seq<char>| reach(units, s, m).contains(x) && pulled(units, x).contains(d);
                let p = pulled(units, x);
                let i = choose|i: int| 0 <= i < p.len() && p[i] == d;
                lemma_pulled_prefix(units, among, x);
                assert(deps_of(units, among, x)[i] == d);
                assert(r.ordered.contains(x));
                assert(r.visited.contains(d));
            }
        }
    }
}

/// The start order holds exactly the services the target wants and the
/// known units they name in `After`, `Requires` and `Wants`, transitively.
pub proof fn lemma_target_order_closure(units: Seq<UnitView>, target: Seq<char>)
    ensures
        forall|x: Seq<char>|
            target_order(units, target).contains(x) <==> in_closure(units, target_services(units, target), x),
        forall|x: Seq<char>|
            pulled_order(units, target).contains(x) <==> in_closure(units, target_services(units, target), x),
{
    let ts = target_services(units, target);
    let pred = |u: UnitView| u.wanted_by.contains(target);
    let fl = units.filter(pred);
    assert forall|j: int| 0 <= j < ts.len() implies known(units, #[trigger] ts[j]) by {
        assert(ts[j] == fl[j].name);
        assert(fl.contains(fl[j]));
        units.lemma_filter_contains_rev(pred, fl[j]);
        let k = choose|k: int| 0 <= k < units.len() && units[k] == fl[j];
        lemma_unit_index(units, ts[j]);
    }
    lemma_order_closure(units, ts, None);
    lemma_order_closure(units, ts, Some(pulled_order(units, target)));
}

/// The names of the units whose `Before` lists `name`, in the order of the
/// units.
pub open spec fn before_of(units: Seq<UnitView>, name: Seq<char>) -> Seq<Seq<char>> {
    units.filter(|u: UnitView| u.before.contains(name)).map_values(|u: UnitView| u.name)
}

/// All the names a unit is to start after: its `After`, then `Requires`,
/// then `Wants` names, then the units that name it in `Before`.
pub open spec fn unit_deps(units: Seq<UnitView>, name: Seq<char>) -> Seq<Seq<char>> {
    match unit_index(units, name) {
        Some(k) => if 0 <= k < units.len() {
            units[k].after + units[k].requires + units[k].wants + before_of(units, name)
        } else {
            seq![]
        },
        None => seq![],
    }
}

/// `rank` shows the dependencies acyclic: every known unit's rank is below
/// the number of units, and above the rank of each known unit it is to
/// start after (see `unit_deps`).
pub open spec fn ranked(units: Seq<UnitView>, rank: spec_fn(Seq<char>) -> nat) -> bool {
    forall|name: Seq<char>|
        #[trigger] known(units, name) ==> rank(name) < units.len() && forall|i: int|
            0 <= i < unit_deps(units, name).len() && known(units, #[trigger] unit_deps(units, name)[i])
                ==> rank(unit_deps(units, name)[i]) < rank(name)
}

/// `rank` decreases along `deps_of`.
pub open spec fn rank_ok(units: Seq<UnitView>, among: Option<Seq<Seq<char>>>, rank: spec_fn(Seq<char>) -> nat) -> bool {
    forall|name: Seq<char>|
        #[trigger] known(units, name) ==> rank(name) < units.len() && forall|i: int|
            0 <= i < deps_of(units, among, name).len() && known(units, #[trigger] deps_of(units, among, name)[i])
                ==> rank(deps_of(units, among, name)[i]) < rank(name)
}

proof fn lemma_ranked_ok(units: Seq<UnitView>, among: Option<Seq<Seq<char>>>, rank: spec_fn(Seq<char>) -> nat)
    requires
        ranked(units, rank),
    ensures
        rank_ok(units, among, rank),
{
    assert forall|name: Seq<char>| #[trigger] known(units, name) implies rank(name) < units.len() && forall|i: int|
        0 <= i < deps_of(units, among, name).len() && known(units, #[trigger] deps_of(units, among, name)[i])
            ==> rank(deps_of(units, among, name)[i]) < rank(name) by {
        lemma_unit_index(units, name);
        let k = unit_index(units, name)->0;
        let u = units[k];
        let p = u.after + u.requires + u.wants;
        let ud = unit_deps(units, name);
        assert(ud == p + before_of(units, name));
        assert forall|i: int|
            0 <= i < deps_of(units, among, name).len() && known(units, #[trigger] deps_of(units, among, name)[i])
                implies rank(deps_of(units, among, name)[i]) < rank(name) by {
            let ds = deps_of(units, among, name);
            if i < p.len() {
                assert(ds[i] == p[i] && ud[i] == p[i]);
            } else {
                let c = among->0;
                let m = i - p.len();
                let pred = |u: UnitView| u.before.contains(name) && c.contains(u.name);
                let fl = units.filter(pred);
                assert(ds == p + before_in(units, c, name));
                assert(ds[i] == fl[m].name);
                units.lemma_filter_pred(pred, m);
                assert(fl.contains(fl[m]));
                units.lemma_filter_contains_rev(pred, fl[m]);
                let j = choose|j: int| 0 <= j < units.len() && units[j] == fl[m];
                let pb = |u: UnitView| u.before.contains(name);
                units.lemma_filter_contains(pb, j);
                let fb = units.filter(pb);
                let t = choose|t: int| 0 <= t < fb.len() && fb[t] == units[j];
                assert(before_of(units, name)[t] == ds[i]);
                assert(ud[p.len() + t] == ds[i]);
            }
        }
    }
}

/// In `order`, every known name of `deps_of` comes before the name.
pub open spec fn deps_first(order: Seq<Seq<char>>, units: Seq<UnitView>, among: Option<Seq<Seq<char>>>) -> bool {
    forall|p: int, i: int|
        0 <= p < order.len() && 0 <= i < deps_of(units, among, #[trigger] order[p]).len() && known(
            units,
            #[trigger] deps_of(units, among, order[p])[i],
        ) ==> exists|q: int| 0 <= q < p && order[q] == deps_of(units, among, order[p])[i]
}

/// `a` is `b` or `b` extended at its end.
pub open spec fn extends(b: Seq<Seq<char>>, a: Seq<Seq<char>>) -> bool {
    a.len() <= b.len() && forall|i: int| 0 <= i < a.len() ==> #[trigger] b[i] == a[i]
}

proof fn lemma_deps_first_extends(a: Seq<Seq<char>>, b: Seq<Seq<char>>, units: Seq<UnitView>, among: Option<Seq<Seq<char>>>)
    requires
        deps_first(a, units, among),
        extends(b, a),
        forall|p: int, i: int|
            a.len() <= p < b.len() && 0 <= i < deps_of(units, among, #[trigger] b[p]).len() && known(
                units,
                #[trigger] deps_of(units, among, b[p])[i],
            ) ==> exists|q: int| 0 <= q < p && b[q] == deps_of(units, among, b[p])[i],
    ensures
        deps_first(b, units, among),
{
    assert forall|p: int, i: int|
        0 <= p < b.len() && 0 <= i < deps_of(units, among, #[trigger] b[p]).len() && known(
            units,
            #[trigger] deps_of(units, among, b[p])[i],
        ) implies exists|q: int| 0 <= q < p && b[q] == deps_of(units, among, b[p])[i] by {
        if p < a.len() {
            assert(b[p] == a[p]);
            let q = choose|q: int| 0 <= q < p && a[q] == deps_of(units, among, a[p])[i];
            assert(b[q] == a[q]);
        }
    }
}

proof fn lemma_resolve_one_order(
    fuel: nat,
    name: Seq<char>,
    units: Seq<UnitView>,
    among: Option<Seq<Seq<char>>>,
    st: DepState,
    rank: spec_fn(Seq<char>) -> nat,
)
    requires
        dep_sound(st),
        deps_first(st.ordered, units, among),
        rank_ok(units, among, rank),
        known(units, name),
        fuel > rank(name),
        forall|x: Seq<char>| #[trigger] in_progress(st, x) ==> rank(x) > rank(name),
    ensures
        resolve_one(fuel, name, units, among, st).ordered.contains(name),
        deps_first(resolve_one(fuel, name, units, among, st).ordered, units, among),
        extends(resolve_one(fuel, name, units, among, st).ordered, st.ordered),
        forall|x: Seq<char>|
            #[trigger] in_progress(resolve_one(fuel, name, units, among, st), x) ==> in_progress(st, x),
    decreases fuel, 0int,
{
    if st.visited.contains(name) {
        assert(!in_progress(st, name));
    } else {
        let st1 = DepState { visited: st.visited.push(name), ..st };
        lemma_push_contains(st.visited, name);
        let b = rank(name);
        let deps = deps_of(units, among, name);
        assert forall|x: Seq<char>| #[trigger] in_progress(st1, x) implies rank(x) >= b by {
            if x != name {
                assert(in_progress(st, x));
            }
        }
        let f = (fuel - 1) as nat;
        lemma_resolve_list_sound(f, deps, 0, units, among, st1);
        lemma_resolve_list_order(f, deps, 0, units, among, st1, rank, b);
        let st2 = resolve_list(f, deps, 0, units, among, st1);
        assert(resolve_one(fuel, name, units, among, st).ordered == st2.ordered.push(name));
        assert(resolve_one(fuel, name, units, among, st).visited == st2.visited);
        assert(!st.ordered.contains(name));
        assert(!st2.ordered.contains(name));
        let r = st2.ordered.push(name);
        lemma_push_contains(st2.ordered, name);
        assert(r[st2.ordered.len() as int] == name);
        assert forall|p: int, i: int|
            st2.ordered.len() <= p < r.len() && 0 <= i < deps_of(units, among, #[trigger] r[p]).len() && known(
                units,
                #[trigger] deps_of(units, among, r[p])[i],
            ) implies exists|q: int| 0 <= q < p && r[q] == deps_of(units, among, r[p])[i] by {
            assert(r[p] == name);
            assert(st2.ordered.contains(deps[i]));
            let q = choose|q: int| 0 <= q < st2.ordered.len() && st2.ordered[q] == deps[i];
            assert(r[q] == st2.ordered[q]);
        }
        assert(extends(r, st2.ordered));
        lemma_deps_first_extends(st2.ordered, r, units, among);
        assert forall|x: Seq<char>| #[trigger] in_progress(resolve_one(fuel, name, units, among, st), x) implies in_progress(st, x) by {
            if x != name {
                assert(r.contains(x) <== st2.ordered.contains(x));
                assert(in_progress(st2, x));
                assert(in_progress(st1, x));
            }
        }
    }
}

proof fn lemma_resolve_list_order(
    fuel: nat,
    deps: Seq<Seq<char>>,
    i: int,
    units: Seq<UnitView>,
    among: Option<Seq<Seq<char>>>,
    st: DepState,
    rank: spec_fn(Seq<char>) -> nat,
    b: nat,
)
    requires
        dep_sound(st),
        deps_first(st.ordered, units, among),
        rank_ok(units, among, rank),
        fuel >= b,
        forall|x: Seq<char>| #[trigger] in_progress(st, x) ==> rank(x) >= b,
        forall|j: int| 0 <= i <= j < deps.len() && known(units, #[trigger] deps[j]) ==> rank(deps[j]) < b,
    ensures
        forall|j: int|
            0 <= i <= j < deps.len() && known(units, #[trigger] deps[j]) ==> resolve_list(fuel, deps, i, units, among, st).ordered.contains(deps[j]),
        deps_first(resolve_list(fuel, deps, i, units, among, st).ordered, units, among),
        extends(resolve_list(fuel, deps, i, units, among, st).ordered, st.ordered),
        forall|x: Seq<char>|
            #[trigger] in_progress(resolve_list(fuel, deps, i, units, among, st), x) ==> in_progress(st, x),
    decreases fuel, deps.len() - i + 1,
{
    if i < 0 || i >= deps.len() {
    } else {
        let st1 = if known(units, deps[i]) {
            lemma_resolve_one_order(fuel, deps[i], units, among, st, rank);
            lemma_resolve_one_sound(fuel, deps[i], units, among, st);
            resolve_one(fuel, deps[i], units, among, st)
        } else {
            st
        };
        lemma_resolve_list_order(fuel, deps, i + 1, units, among, st1, rank, b);
        let r = resolve_list(fuel, deps, i + 1, units, among, st1);
        if known(units, deps[i]) {
            let q = choose|q: int| 0 <= q < st1.ordered.len() && st1.ordered[q] == deps[i];
            assert(r.ordered[q] == st1.ordered[q]);
        }
    }
}

/// A target's start order starts each of its units after the known units
/// it names in `After`, `Requires` and `Wants`, where the dependencies,
/// `Before` included, form no cycle (`rank` orders them).
pub proof fn lemma_dependencies_start_first(
    units: Seq<UnitView>,
    target: Seq<char>,
    rank: spec_fn(Seq<char>) -> nat,
)
    requires
        ranked(units, rank),
    ensures
        deps_first(target_order(units, target), units, None),
        deps_first(target_order(units, target), units, Some(pulled_order(units, target))),
{
    let ts = target_services(units, target);
    let among = Some(pulled_order(units, target));
    let order = target_order(units, target);
    let pred = |u: UnitView| u.wanted_by.contains(target);
    let fl = units.filter(pred);
    assert forall|j: int| 0 <= j < ts.len() implies known(units, #[trigger] ts[j]) by {
        assert(ts[j] == fl[j].name);
        assert(fl.contains(fl[j]));
        units.lemma_filter_contains_rev(pred, fl[j]);
        let k = choose|k: int| 0 <= k < units.len() && units[k] == fl[j];
        lemma_unit_index(units, ts[j]);
    }
    lemma_ranked_ok(units, among, rank);
    let st0 = DepState { ordered: seq![], visited: seq![] };
    assert forall|x: Seq<char>| #[trigger] in_progress(st0, x) implies rank(x) >= units.len() by {}
    lemma_resolve_list_order((units.len() + 1) as nat, ts, 0, units, among, st0, rank, units.len());
    assert forall|p: int, i: int|
        0 <= p < order.len() && 0 <= i < deps_of(units, None, #[trigger] order[p]).len() && known(
            units,
            #[trigger] deps_of(units, None, order[p])[i],
        ) implies exists|q: int| 0 <= q < p && order[q] == deps_of(units, None, order[p])[i] by {
        lemma_pulled_prefix(units, among, order[p]);
        assert(deps_of(units, among, order[p])[i] == pulled(units, order[p])[i]);
    }
}

/// The `Before` names of the unit `name` (none for an unknown name).
pub open spec fn unit_before(units: Seq<UnitView>, name: Seq<char>) -> Seq<Seq<char>> {
    match unit_index(units, name) {
        Some(k) => if 0 <= k < units.len() {
            units[k].before
        } else {
            seq![]
        },
        None => seq![],
    }
}

/// Where the dependencies and the `Before` relations form no cycle, a
/// started unit that names another started unit in `Before` starts before
/// it.
pub proof fn lemma_before_starts_first(
    units: Seq<UnitView>,
    target: Seq<char>,
    rank: spec_fn(Seq<char>) -> nat,
)
    requires
        ranked(units, rank),
    ensures
        forall|i: int, j: int|
            0 <= i < target_order(units, target).len() && 0 <= j < target_order(units, target).len()
                && unit_before(units, #[trigger] target_order(units, target)[i]).contains(
                #[trigger] target_order(units, target)[j],
            ) ==> i < j,
{
    let order = target_order(units, target);
    let c = pulled_order(units, target);
    let among = Some(c);
    let ts = target_services(units, target);
    lemma_dependencies_start_first(units, target, rank);
    lemma_target_order_distinct(units, target);
    lemma_target_order_closure(units, target);
    lemma_closure_known(units, target);
    assert forall|i: int, j: int|
        0 <= i < order.len() && 0 <= j < order.len() && unit_before(units, #[trigger] order[i]).contains(
            #[trigger] order[j],
        ) implies i < j by {
        let x = order[i];
        let y = order[j];
        assert(order.contains(x) && order.contains(y));
        assert(c.contains(x));
        assert(known(units, x) && known(units, y));
        lemma_unit_index(units, x);
        let kx = unit_index(units, x)->0;
        let pred = |u: UnitView| u.before.contains(y) && c.contains(u.name);
        units.lemma_filter_contains(pred, kx);
        let fl = units.filter(pred);
        let m = choose|m: int| 0 <= m < fl.len() && fl[m] == units[kx];
        let bi = before_in(units, c, y);
        assert(bi[m] == x);
        lemma_unit_index(units, y);
        let ky = unit_index(units, y)->0;
        let u = units[ky];
        let n = u.after.len() + u.requires.len() + u.wants.len();
        let ds = deps_of(units, among, y);
        assert(ds == u.after + u.requires + u.wants + bi);
        assert(ds[n + m] == x);
        let q = choose|q: int| 0 <= q < j && order[q] == ds[n + m];
        assert(q == i);
    }
}

/// The names reached from the services of a target are those of known
/// units.
proof fn lemma_closure_known(units: Seq<UnitView>, target: Seq<char>)
    ensures
        forall|x: Seq<char>| in_closure(units, target_services(units, target), x) ==> known(units, x),
{
    let ts = target_services(units, target);
    let pred = |u: UnitView| u.wanted_by.contains(target);
    let fl = units.filter(pred);
    assert forall|j: int| 0 <= j < ts.len() implies known(units, #[trigger] ts[j]) by {
        assert(ts[j] == fl[j].name);
        assert(fl.contains(fl[j]));
        units.lemma_filter_contains_rev(pred, fl[j]);
        let k = choose|k: int| 0 <= k < units.len() && units[k] == fl[j];
        lemma_unit_index(units, ts[j]);
    }
    assert forall|x: Seq<char>| in_closure(units, ts, x) implies known(units, x) by {
        let n = choose|n: nat| #[trigger] reach(units, ts, n).contains(x);
        lemma_reach_known(units, ts, n);
    }
}

proof fn lemma_reach_known(units: Seq<UnitView>, s: Seq<Seq<char>>, n: nat)
    requires
        forall|j: int| 0 <= j < s.len() ==> known(units, #[trigger] s[j]),
    ensures
        forall|x: Seq<char>| reach(units, s, n).contains(x) ==> known(units, x),
    decreases n,
{
    if n == 0 {
        assert forall|x: Seq<char>| reach(units, s, n).contains(x) implies known(units, x) by {
            let j = choose|j: int| 0 <= j < s.len() && s[j] == x;
        }
    } else {
        lemma_reach_known(units, s, (n - 1) as nat);
    }
}


/// A service whose process exits is started again exactly where its
/// policy is `Always`, or `OnFailure` and the process did not exit with
/// status 0; a restart waits the restart interval, and 10 seconds more
/// once the restarts counted pass 10, when the count starts again.
pub proof fn lemma_restart_rule(policy: RestartPolicy, exited_ok: bool, count: u32, restart_sec: u64)
    ensures
        restart_spec(policy, exited_ok, count, restart_sec) is Some <==> (policy == RestartPolicy::Always || (
        policy == RestartPolicy::OnFailure && !exited_ok)),
        restart_spec(policy, exited_ok, count, restart_sec) matches Some((c, pause, delay)) ==> delay
            == restart_sec && (if count + 1 > 10 {
            pause == 10 && c == 0
        } else {
            pause == 0 && c == count + 1
        }),
{
}

} // verus!
