//! id: what an invocation asks to be printed, and the line it prints.
use vstd::prelude::*;
use crate::num::{decimal, fmt_dec};
use crate::text::{chars_of, eq_lit, push_all, push_str, string_of, views};

verus! {

/// What id prints.
#[derive(PartialEq, Eq, Structural)]
pub enum IdQuery {
    /// The user: its name where `name`, else its number.
    User { name: bool },
    /// The group: its name where `name`, else its number.
    Group { name: bool },
    /// The whole line.
    All,
}

pub open spec fn has(args: Seq<Seq<char>>, w: Seq<char>) -> bool {
    exists|k: int| 0 <= k < args.len() && args[k] == w
}

/// `-u` anywhere asks for the user, else `-g` anywhere for the group;
/// `-n` or `--name` anywhere asks for names.
pub open spec fn query_spec(args: Seq<Seq<char>>) -> IdQuery {
    let name = has(args, "-n"@) || has(args, "--name"@);
    if has(args, "-u"@) {
        IdQuery::User { name }
    } else if has(args, "-g"@) {
        IdQuery::Group { name }
    } else {
        IdQuery::All
    }
}

fn has_word(args: &[String], w: &str) -> (r: bool)
    ensures
        r == has(views(args@), w@),
{
    let ghost av = views(args@);
    let mut i: usize = 0;
    while i < args.len()
        invariant
            i <= args@.len(),
            av == views(args@),
            forall|k: int| 0 <= k < i ==> av[k] != w@,
        decreases args@.len() - i,
    {
        assert(av[i as int] == args@[i as int]@);
        if eq_lit(chars_of(args[i].as_str()).as_slice(), w) {
            return true;
        }
        i = i + 1;
    }
    false
}

/// What an invocation asks for.
pub fn query(args: &[String]) -> (r: IdQuery)
    ensures
        r == query_spec(views(args@)),
{
    let name = has_word(args, "-n") || has_word(args, "--name");
    if has_word(args, "-u") {
        IdQuery::User { name }
    } else if has_word(args, "-g") {
        IdQuery::Group { name }
    } else {
        IdQuery::All
    }
}

/// The whole line: user and group numbers with their names, then the
/// effective numbers where they differ.
pub open spec fn full_spec(uid: u32, gid: u32, euid: u32, egid: u32, uname: Seq<char>, gname: Seq<char>) -> Seq<char> {
    "uid="@ + decimal(uid as nat) + "("@ + uname + ") gid="@ + decimal(gid as nat) + "("@ + gname + ")"@
        + (if euid != uid { " euid="@ + decimal(euid as nat) } else { seq![] })
        + (if egid != gid { " egid="@ + decimal(egid as nat) } else { seq![] })
}

/// `full_spec`; a name that could not be looked up is empty.
pub fn full_line(uid: u32, gid: u32, euid: u32, egid: u32, uname: &str, gname: &str) -> (r: String)
    ensures
        r@ == full_spec(uid, gid, euid, egid, uname@, gname@),
{
    let mut v = chars_of("uid=");
    push_all(&mut v, fmt_dec(uid as u64).as_slice());
    push_str(&mut v, "(");
    push_all(&mut v, chars_of(uname).as_slice());
    push_str(&mut v, ") gid=");
    push_all(&mut v, fmt_dec(gid as u64).as_slice());
    push_str(&mut v, "(");
    push_all(&mut v, chars_of(gname).as_slice());
    push_str(&mut v, ")");
    let ghost base = v@;
    if euid != uid {
        push_str(&mut v, " euid=");
        push_all(&mut v, fmt_dec(euid as u64).as_slice());
    }
    let ghost mid = v@;
    assert(mid =~= base + (if euid != uid { " euid="@ + decimal(euid as nat) } else { seq![] }));
    if egid != gid {
        push_str(&mut v, " egid=");
        push_all(&mut v, fmt_dec(egid as u64).as_slice());
    }
    assert(v@ =~= mid + (if egid != gid { " egid="@ + decimal(egid as nat) } else { seq![] }));
    string_of(v.as_slice())
}

} // verus!
