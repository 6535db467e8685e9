//! hostname: where the new host name comes from.
use vstd::prelude::*;
use crate::text::{chars_of, chars_of_all, eq_lit, starts_with, starts_with_lit, string_of, trim, trim_chars, views};

verus! {

/// A word of the invocation that names the host, in order.
pub enum HostSource {
    /// The name itself.
    Name(String),
    /// `-F FILE`: the file's text, trimmed, where it is not empty.
    File(String),
    /// `-F` without a file: `hostname: option requires an argument -- 'F'`,
    /// fail; nothing after it is read.
    MissingFile,
}

pub enum SourceView {
    Name(Seq<char>),
    File(Seq<char>),
    MissingFile,
}

impl View for HostSource {
    type V = SourceView;

    open spec fn view(&self) -> SourceView {
        match self {
            HostSource::Name(s) => SourceView::Name(s@),
            HostSource::File(s) => SourceView::File(s@),
            HostSource::MissingFile => SourceView::MissingFile,
        }
    }
}

/// The sources named by the words from `i` on; other words that start
/// with `-` are ignored.
pub open spec fn sources_spec(args: Seq<Seq<char>>, i: int) -> Seq<SourceView>
    decreases args.len() - i,
{
    if i < 0 || i >= args.len() {
        seq![]
    } else {
        let a = args[i];
        if a == "-F"@ || a == "--file"@ {
            if i + 1 < args.len() {
                seq![SourceView::File(args[i + 1])] + sources_spec(args, i + 2)
            } else {
                seq![SourceView::MissingFile]
            }
        } else if !starts_with(a, "-"@) {
            seq![SourceView::Name(a)] + sources_spec(args, i + 1)
        } else {
            sources_spec(args, i + 1)
        }
    }
}

/// The sources of an invocation (see `sources_spec`).
pub fn sources(args: &[String]) -> (r: Vec<HostSource>)
    ensures
        r@.map_values(|s: HostSource| s@) == sources_spec(views(args@), 0),
{
    let ghost av = views(args@);
    let cs = chars_of_all(args);
    let n = args.len();
    let mut r: Vec<HostSource> = Vec::new();
    let mut i: usize = 0;
    assert(r@.map_values(|s: HostSource| s@) =~= Seq::<SourceView>::empty());
    while i < n
        invariant
            n == args@.len(),
            cs@.len() == n,
            av == views(args@),
            forall|k: int| 0 <= k < n ==> #[trigger] cs@[k]@ == args@[k]@,
            i <= n,
            r@.map_values(|s: HostSource| s@) + sources_spec(av, i as int) == sources_spec(av, 0),
        decreases n - i,
    {
        let a = cs[i].as_slice();
        assert(av[i as int] == a@);
        let ghost before = r@.map_values(|s: HostSource| s@);
        if eq_lit(a, "-F") || eq_lit(a, "--file") {
            if i + 1 < n {
                assert(av[i + 1] == cs@[i + 1]@);
                r.push(HostSource::File(args[i + 1].clone()));
                assert(r@.map_values(|s: HostSource| s@) =~= before.push(SourceView::File(av[i + 1])));
                assert(before.push(SourceView::File(av[i + 1])) + sources_spec(av, i + 2) =~= before + sources_spec(av, i as int));
                i = i + 2;
            } else {
                r.push(HostSource::MissingFile);
                assert(r@.map_values(|s: HostSource| s@) =~= before + sources_spec(av, i as int));
                return r;
            }
        } else if !starts_with_lit(a, "-") {
            r.push(HostSource::Name(args[i].clone()));
            assert(r@.map_values(|s: HostSource| s@) =~= before.push(SourceView::Name(a@)));
            assert(before.push(SourceView::Name(a@)) + sources_spec(av, i + 1) =~= before + sources_spec(av, i as int));
            i = i + 1;
        } else {
            i = i + 1;
        }
    }
    assert(r@.map_values(|s: HostSource| s@) =~= r@.map_values(|s: HostSource| s@) + sources_spec(av, i as int));
    r
}

/// The name a host-name file gives: its text trimmed, where that is not
/// empty.
pub fn name_from_file(content: &str) -> (r: Option<String>)
    ensures
        match r {
            Some(s) => trim(content@).len() > 0 && s@ == trim(content@),
            None => trim(content@).len() == 0,
        },
{
    let t = trim_chars(chars_of(content).as_slice());
    if t.len() == 0 {
        None
    } else {
        Some(string_of(t.as_slice()))
    }
}

} // verus!
