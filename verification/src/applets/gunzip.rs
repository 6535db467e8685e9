//! gunzip: its options, which files it takes, the names it writes, and the
//! decoding of a gzip stream.
use std::io::Read;
use vstd::prelude::*;
use crate::text::{
    chars_of, chars_of_all, ends_with, ends_with_lit, eq_lit, string_of, trim_suffix_all,
    trim_suffix_all_exec, views,
};

verus! {

/// The options of an invocation.
pub struct GunzipArgs {
    pub keep: bool,
    pub force: bool,
    pub stdout: bool,
    pub files: Vec<String>,
}

pub struct ArgsView {
    pub keep: bool,
    pub force: bool,
    pub stdout: bool,
    pub files: Seq<Seq<char>>,
}

impl View for GunzipArgs {
    type V = ArgsView;

    open spec fn view(&self) -> ArgsView {
        ArgsView { keep: self.keep, force: self.force, stdout: self.stdout, files: views(self.files@) }
    }
}

pub open spec fn args_start() -> ArgsView {
    ArgsView { keep: false, force: false, stdout: false, files: seq![] }
}

/// Reading the words from `i` on: `-k`, `-f`, `-c`; words that do not
/// start with `-` are files, others are ignored. `None`: help was asked for.
pub open spec fn args_scan(args: Seq<Seq<char>>, i: int, st: ArgsView) -> Option<ArgsView>
    decreases args.len() - i,
{
    if i < 0 || i >= args.len() {
        Some(st)
    } else {
        let a = args[i];
        if a == "-k"@ || a == "--keep"@ {
            args_scan(args, i + 1, ArgsView { keep: true, ..st })
        } else if a == "-f"@ || a == "--force"@ {
            args_scan(args, i + 1, ArgsView { force: true, ..st })
        } else if a == "-c"@ || a == "--stdout"@ {
            args_scan(args, i + 1, ArgsView { stdout: true, ..st })
        } else if a == "-h"@ || a == "--help"@ {
            None
        } else if a.len() > 0 && a[0] == '-' {
            args_scan(args, i + 1, st)
        } else {
            args_scan(args, i + 1, ArgsView { files: st.files.push(a), ..st })
        }
    }
}

/// Reads the options of an invocation; `None` where help was asked for.
pub fn parse_args(args: &[String]) -> (r: Option<GunzipArgs>)
    ensures
        match r {
            Some(a) => args_scan(views(args@), 0, args_start()) == Some(a@),
            None => args_scan(views(args@), 0, args_start()) is None,
        },
{
    let ghost av = views(args@);
    let cs = chars_of_all(args);
    let n = args.len();
    let mut st = GunzipArgs { keep: false, force: false, stdout: false, files: Vec::new() };
    assert(views(st.files@) =~= Seq::<Seq<char>>::empty());
    assert(st@ =~= args_start());
    let mut i: usize = 0;
    while i < n
        invariant
            n == args@.len(),
            cs@.len() == n,
            av == views(args@),
            forall|k: int| 0 <= k < n ==> #[trigger] cs@[k]@ == args@[k]@,
            i <= n,
            args_scan(av, i as int, st@) == args_scan(av, 0, args_start()),
        decreases n - i,
    {
        let a = cs[i].as_slice();
        assert(av[i as int] == a@);
        if eq_lit(a, "-k") || eq_lit(a, "--keep") {
            st.keep = true;
        } else if eq_lit(a, "-f") || eq_lit(a, "--force") {
            st.force = true;
        } else if eq_lit(a, "-c") || eq_lit(a, "--stdout") {
            st.stdout = true;
        } else if eq_lit(a, "-h") || eq_lit(a, "--help") {
            return None;
        } else if a.len() > 0 && a[0] == '-' {
        } else {
            let ghost before = views(st.files@);
            st.files.push(args[i].clone());
            assert(views(st.files@) =~= before.push(a@));
        }
        i = i + 1;
    }
    Some(st)
}

/// A file without the `.gz` suffix is refused unless `-f` is given.
pub fn refuse_file(name: &str, force: bool) -> (r: bool)
    ensures
        r == (!ends_with(name@, ".gz"@) && !force),
{
    !ends_with_lit(chars_of(name).as_slice(), ".gz") && !force
}

/// The name of the decompressed file: the name without every trailing
/// `.gz`.
pub fn output_name(name: &str) -> (r: String)
    ensures
        r@ == trim_suffix_all(name@, ".gz"@),
{
    string_of(trim_suffix_all_exec(chars_of(name).as_slice(), ".gz").as_slice())
}

/// What flate2's `GzDecoder` makes of a gzip stream read to its end: the
/// data of its first member, or the text of the error.
pub uninterp spec fn gz_decoded(data: Seq<u8>) -> Result<Seq<u8>, Seq<char>>;

/// Trusted: flate2's `read::GzDecoder` over the bytes, read to the end
/// (`Read::read_to_end`); its result depends on the bytes alone, and an
/// error is turned into its text.
#[verifier::external_body]
fn gz_decode(data: &[u8]) -> (r: Result<Vec<u8>, String>)
    ensures
        match (r, gz_decoded(data@)) {
            (Ok(a), Ok(b)) => a@ == b,
            (Err(a), Err(b)) => a@ == b,
            _ => false,
        },
{
    let mut decoder = flate2::read::GzDecoder::new(data);
    let mut output = Vec::new();
    match decoder.read_to_end(&mut output) {
        Ok(_) => Ok(output),
        Err(e) => Err(e.to_string()),
    }
}

/// The data of a gzip stream, or the text of the error (see `gz_decoded`).
pub fn decompress_bytes(data: &[u8]) -> (r: Result<Vec<u8>, String>)
    ensures
        match (r, gz_decoded(data@)) {
            (Ok(a), Ok(b)) => a@ == b,
            (Err(a), Err(b)) => a@ == b,
            _ => false,
        },
{
    gz_decode(data)
}


/// gunzip names a file back as it was before gzip named it: the name that
/// gzip gives a file not already ending in `.gz` ends in `.gz`, so gunzip
/// takes it, and gunzip's name for it is the name it had.
pub proof fn lemma_output_name_round_trip(name: Seq<char>)
    requires
        !ends_with(name, ".gz"@),
    ensures
        ends_with(name + ".gz"@, ".gz"@),
        trim_suffix_all(name + ".gz"@, ".gz"@) == name,
{
    reveal_strlit(".gz");
    let s = name + ".gz"@;
    assert(s.skip(s.len() - 3) =~= ".gz"@);
    assert(s.take(s.len() - 3) =~= name);
    assert(trim_suffix_all(name, ".gz"@) == name);
}

} // verus!
