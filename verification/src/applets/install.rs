//! install: its options, the copies it makes, the mode it sets, and the
//! user and group numbers it looks up.
use vstd::prelude::*;
use crate::num::{parse_dec, parse_dec_exec, parse_unsigned, parse_unsigned_exec};
use crate::paths::{file_name, file_name_spec};
use crate::text::{chars_of, chars_of_all, eq_chars, eq_lit, lines, lines_exec, push_all, push_str, split_exec, split_on, starts_with, starts_with_lit, string_of, views, vviews};

verus! {

/// What the options of an invocation set.
pub struct InstallArgs {
    pub mode: u32,
    pub owner: Option<String>,
    pub group: Option<String>,
    pub directory: bool,
    pub strip: bool,
    pub sources: Vec<String>,
}

pub struct ArgsView {
    pub mode: u32,
    pub owner: Option<Seq<char>>,
    pub group: Option<Seq<char>>,
    pub directory: bool,
    pub strip: bool,
    pub sources: Seq<Seq<char>>,
}

pub open spec fn opt_view(o: Option<String>) -> Option<Seq<char>> {
    match o {
        Some(s) => Some(s@),
        None => None,
    }
}

impl View for InstallArgs {
    type V = ArgsView;

    open spec fn view(&self) -> ArgsView {
        ArgsView {
            mode: self.mode,
            owner: opt_view(self.owner),
            group: opt_view(self.group),
            directory: self.directory,
            strip: self.strip,
            sources: views(self.sources@),
        }
    }
}

/// An octal mode, or `0o755` where the text is not one.
pub open spec fn mode_spec(s: Seq<char>) -> u32 {
    match parse_unsigned(s, 8, u32::MAX as nat) {
        Some(v) => v as u32,
        None => 0o755,
    }
}

/// The mode given to `-m` (see `mode_spec`).
pub fn parse_mode(s: &str) -> (r: u32)
    ensures
        r == mode_spec(s@),
{
    match parse_unsigned_exec(chars_of(s).as_slice(), 8, 0xffff_ffff) {
        Some(v) => v as u32,
        None => 0o755,
    }
}

pub open spec fn args_start() -> ArgsView {
    ArgsView {
        mode: 0o755,
        owner: None,
        group: None,
        directory: false,
        strip: false,
        sources: seq![],
    }
}

/// Reading the words from `i` on: `-m MODE`, `-o OWNER`, `-g GROUP`, `-d`,
/// `-s`; words that do not start with `-` are the paths. `None`: help was
/// asked for.
pub open spec fn args_scan(args: Seq<Seq<char>>, i: int, st: ArgsView) -> Option<ArgsView>
    decreases args.len() - i,
{
    if i < 0 || i >= args.len() {
        Some(st)
    } else {
        let a = args[i];
        if a == "-m"@ || a == "--mode"@ || a == "-o"@ || a == "--owner"@ || a == "-g"@ || a
            == "--group"@ {
            if i + 1 < args.len() {
                let v = args[i + 1];
                let st2 = if a == "-m"@ || a == "--mode"@ {
                    ArgsView { mode: mode_spec(v), ..st }
                } else if a == "-o"@ || a == "--owner"@ {
                    ArgsView { owner: Some(v), ..st }
                } else {
                    ArgsView { group: Some(v), ..st }
                };
                args_scan(args, i + 2, st2)
            } else {
                Some(st)
            }
        } else if a == "-d"@ || a == "--directory"@ {
            args_scan(args, i + 1, ArgsView { directory: true, ..st })
        } else if a == "-s"@ || a == "--strip"@ {
            args_scan(args, i + 1, ArgsView { strip: true, ..st })
        } else if a == "-h"@ || a == "--help"@ {
            None
        } else if !starts_with(a, "-"@) {
            args_scan(args, i + 1, ArgsView { sources: st.sources.push(a), ..st })
        } else {
            args_scan(args, i + 1, st)
        }
    }
}

/// Reads the options of an invocation; `None` where help was asked for.
pub fn parse_args(args: &[String]) -> (r: Option<InstallArgs>)
    ensures
        match r {
            Some(a) => args_scan(views(args@), 0, args_start()) == Some(a@),
            None => args_scan(views(args@), 0, args_start()) is None,
        },
{
    let ghost av = views(args@);
    let cs = chars_of_all(args);
    let n = args.len();
    let mut st = InstallArgs {
        mode: 0o755,
        owner: None,
        group: None,
        directory: false,
        strip: false,
        sources: Vec::new(),
    };
    assert(views(st.sources@) =~= Seq::<Seq<char>>::empty());
    assert(st@ =~= args_start());
    let mut i: usize = 0;
    while i < n
        invariant
            n == args@.len(),
            cs@.len() == n,
            av == views(args@),
            forall|k: int| 0 <= k < n ==> #[trigger] cs@[k]@ == args@[k]@,
            i <= n,
            args_scan(av, i as int, st@) == args_scan(av, 0, args_start()),
        decreases n - i,
    {
        let a = cs[i].as_slice();
        assert(av[i as int] == a@);
        let is_mode = eq_lit(a, "-m") || eq_lit(a, "--mode");
        let is_owner = eq_lit(a, "-o") || eq_lit(a, "--owner");
        let is_group = eq_lit(a, "-g") || eq_lit(a, "--group");
        if is_mode || is_owner || is_group {
            if i + 1 < n {
                assert(av[i + 1] == cs@[i + 1]@);
                if is_mode {
                    st.mode = parse_mode(args[i + 1].as_str());
                } else if is_owner {
                    st.owner = Some(args[i + 1].clone());
                } else {
                    st.group = Some(args[i + 1].clone());
                }
                i = i + 2;
            } else {
                i = n;
            }
        } else if eq_lit(a, "-d") || eq_lit(a, "--directory") {
            st.directory = true;
            i = i + 1;
        } else if eq_lit(a, "-s") || eq_lit(a, "--strip") {
            st.strip = true;
            i = i + 1;
        } else if eq_lit(a, "-h") || eq_lit(a, "--help") {
            return None;
        } else if !starts_with_lit(a, "-") {
            let ghost before = views(st.sources@);
            st.sources.push(args[i].clone());
            assert(views(st.sources@) =~= before.push(a@));
            i = i + 1;
        } else {
            i = i + 1;
        }
    }
    Some(st)
}

/// What a copy goes to: into the destination directory under the
/// source's file name (the source itself where it has none), else the
/// destination itself.
pub open spec fn target_spec(source: Seq<char>, dest: Seq<char>, dest_is_dir: bool) -> Seq<char> {
    if dest_is_dir {
        let f = file_name_spec(source);
        dest + "/"@ + (if f.len() == 0 {
            source
        } else {
            f
        })
    } else {
        dest
    }
}

/// The copies an invocation makes, without `-d`: the last path is the
/// destination. `Err(None)`: fewer than two paths (the usage is printed);
/// `Err(Some(dest))`: several sources and a destination that is not a
/// directory.
pub open spec fn copies_spec(paths: Seq<Seq<char>>, dest_is_dir: bool) -> Result<
    Seq<(Seq<char>, Seq<char>)>,
    Option<Seq<char>>,
> {
    if paths.len() < 2 {
        Err(None)
    } else {
        let dest = paths.last();
        let sources = paths.drop_last();
        if sources.len() > 1 && !dest_is_dir {
            Err(Some(dest))
        } else {
            Ok(sources.map_values(|s: Seq<char>| (s, target_spec(s, dest, dest_is_dir))))
        }
    }
}

pub open spec fn pair_views(v: Seq<(String, String)>) -> Seq<(Seq<char>, Seq<char>)> {
    v.map_values(|p: (String, String)| (p.0@, p.1@))
}

fn target_exec(source: &str, dest: &str, dest_is_dir: bool) -> (r: String)
    ensures
        r@ == target_spec(source@, dest@, dest_is_dir),
{
    if dest_is_dir {
        let f = file_name(source);
        let fc = chars_of(f.as_str());
        let mut t = chars_of(dest);
        push_str(&mut t, "/");
        if fc.len() == 0 {
            push_all(&mut t, chars_of(source).as_slice());
        } else {
            push_all(&mut t, fc.as_slice());
        }
        string_of(t.as_slice())
    } else {
        crate::text::to_string(dest)
    }
}

/// The copies, each source with its target (see `copies_spec`); the
/// destination being a directory is told by `dest_is_dir`.
pub fn plan_copies(paths: &Vec<String>, dest_is_dir: bool) -> (r: Result<
    Vec<(String, String)>,
    Option<String>,
>)
    ensures
        match (r, copies_spec(views(paths@), dest_is_dir)) {
            (Ok(a), Ok(b)) => pair_views(a@) == b,
            (Err(None), Err(None)) => true,
            (Err(Some(a)), Err(Some(b))) => a@ == b,
            _ => false,
        },
{
    let ghost pv = views(paths@);
    let n = paths.len();
    if n < 2 {
        return Err(None);
    }
    assert(pv.last() == paths@[n - 1]@);
    let dest = paths[n - 1].as_str();
    if n - 1 > 1 && !dest_is_dir {
        return Err(Some(paths[n - 1].clone()));
    }
    let ghost srcs = pv.drop_last();
    let ghost f = |s: Seq<char>| (s, target_spec(s, pv.last(), dest_is_dir));
    let mut out: Vec<(String, String)> = Vec::new();
    let mut i: usize = 0;
    while i < n - 1
        invariant
            n == paths@.len(),
            n >= 2,
            pv == views(paths@),
            srcs == pv.drop_last(),
            dest@ == pv.last(),
            f == (|s: Seq<char>| (s, target_spec(s, pv.last(), dest_is_dir))),
            i <= n - 1,
            pair_views(out@) == srcs.take(i as int).map_values(f),
        decreases n - 1 - i,
    {
        assert(srcs[i as int] == paths@[i as int]@);
        let t = target_exec(paths[i].as_str(), dest, dest_is_dir);
        let ghost before = out@;
        out.push((paths[i].clone(), t));
        assert(pair_views(out@) =~= pair_views(before).push(f(srcs[i as int])));
        assert(srcs.take(i + 1).map_values(f) =~= srcs.take(i as int).map_values(f).push(
            f(srcs[i as int]),
        ));
        i = i + 1;
    }
    assert(srcs.take((n - 1) as int) =~= srcs);
    Ok(out)
}

/// The number of a user or group: the name itself where it is a `u32`,
/// else the third `:`-separated field of the first line of the table
/// (`/etc/passwd` or `/etc/group`, `None` where it could not be read) with
/// the name in its first field and at least three fields, where that
/// field is a `u32`.
pub open spec fn resolve_spec(name: Seq<char>, table: Option<Seq<char>>) -> Option<u32> {
    match parse_dec(name, u32::MAX as nat) {
        Some(v) => Some(v as u32),
        None => match table {
            None => None,
            Some(t) => table_lookup(lines(t), name),
        },
    }
}

pub open spec fn table_lookup(ls: Seq<Seq<char>>, name: Seq<char>) -> Option<u32>
    decreases ls.len(),
{
    if ls.len() == 0 {
        None
    } else {
        let parts = split_on(ls[0], ':');
        if parts.len() >= 3 && parts[0] == name {
            match parse_dec(parts[2], u32::MAX as nat) {
                Some(v) => Some(v as u32),
                None => None,
            }
        } else {
            table_lookup(ls.drop_first(), name)
        }
    }
}

/// The number of a user or group (see `resolve_spec`).
pub fn resolve_id(name: &str, table: Option<&str>) -> (r: Option<u32>)
    ensures
        r == resolve_spec(
            name@,
            match table {
                Some(t) => Some(t@),
                None => None,
            },
        ),
{
    let ghost tv: Option<Seq<char>> = match table {
        Some(t) => Some(t@),
        None => None,
    };
    let nc = chars_of(name);
    match parse_dec_exec(nc.as_slice(), 0xffff_ffff) {
        Some(v) => {
            return Some(v as u32);
        },
        None => {},
    }
    let t = match table {
        Some(t) => t,
        None => {
            return None;
        },
    };
    let ls = lines_exec(chars_of(t).as_slice());
    let ghost lv = vviews(ls@);
    let ghost target = table_lookup(lv, name@);
    assert(target == resolve_spec(name@, tv));
    let mut i: usize = 0;
    assert(lv.skip(0) =~= lv);
    while i < ls.len()
        invariant
            i <= ls@.len(),
            nc@ == name@,
            lv == vviews(ls@),
            target == table_lookup(lv, name@),
            target == resolve_spec(name@, tv),
            tv == (match table {
                Some(t) => Some(t@),
                None => None::<Seq<char>>,
            }),
            table_lookup(lv.skip(i as int), name@) == target,
        decreases ls@.len() - i,
    {
        assert(lv.skip(i as int)[0] == ls@[i as int]@);
        assert(lv.skip(i as int).drop_first() =~= lv.skip(i + 1));
        let parts = split_exec(ls[i].as_slice(), ':');
        assert(vviews(parts@) == split_on(lv.skip(i as int)[0], ':'));
        if parts.len() >= 3 {
            assert(vviews(parts@)[0] == parts@[0]@);
            assert(vviews(parts@)[2] == parts@[2]@);
            if eq_chars(parts[0].as_slice(), nc.as_slice()) {
                return match parse_dec_exec(parts[2].as_slice(), 0xffff_ffff) {
                    Some(v) => Some(v as u32),
                    None => None,
                };
            }
        }
        i = i + 1;
    }
    assert(lv.skip(i as int) =~= Seq::<Seq<char>>::empty());
    None
}

} // verus!
