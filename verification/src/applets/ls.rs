//! ls: its options, the order and choice of a directory's entries, and
//! the lines it prints for them.
use vstd::prelude::*;
use crate::num::{decimal, fmt_dec, pad_left, pad_left_exec, pad_right, pad_right_exec};
use crate::paths::{file_name, file_name_spec, join_path, join_path_spec};
use crate::text::{
    chars_of, chars_of_all, copy_chars, eq_lit, push_all, push_str, starts_with, starts_with_lit,
    string_of, to_string, utf8_len, utf8_len_exec, views, vviews,
};

verus! {

/// The on/off options of an invocation.
#[derive(Clone, Copy)]
pub struct LsFlags {
    /// `-a`
    pub all: bool,
    /// `-A`
    pub almost_all: bool,
    /// `-l`
    pub long_format: bool,
    /// `-h`
    pub human_readable: bool,
    /// `-1`
    pub one_per_line: bool,
    /// `-r`
    pub reverse: bool,
    /// `-t`
    pub by_time: bool,
    /// `-S`
    pub by_size: bool,
    /// `-R`
    pub recursive: bool,
}

pub open spec fn no_flags() -> LsFlags {
    LsFlags {
        all: false,
        almost_all: false,
        long_format: false,
        human_readable: false,
        one_per_line: false,
        reverse: false,
        by_time: false,
        by_size: false,
        recursive: false,
    }
}

/// The option number of a letter (`a A l h 1 r t S R` are 0 to 8).
pub open spec fn letter_id(c: char) -> Option<nat> {
    if c == 'a' {
        Some(0)
    } else if c == 'A' {
        Some(1)
    } else if c == 'l' {
        Some(2)
    } else if c == 'h' {
        Some(3)
    } else if c == '1' {
        Some(4)
    } else if c == 'r' {
        Some(5)
    } else if c == 't' {
        Some(6)
    } else if c == 'S' {
        Some(7)
    } else if c == 'R' {
        Some(8)
    } else {
        None
    }
}

/// The option number of a whole word such as `-l` or `--reverse`.
pub open spec fn word_id(a: Seq<char>) -> Option<nat> {
    if a == "-a"@ || a == "--all"@ {
        Some(0)
    } else if a == "-A"@ {
        Some(1)
    } else if a == "-l"@ {
        Some(2)
    } else if a == "-h"@ || a == "--human-readable"@ {
        Some(3)
    } else if a == "-1"@ {
        Some(4)
    } else if a == "-r"@ || a == "--reverse"@ {
        Some(5)
    } else if a == "-t"@ {
        Some(6)
    } else if a == "-S"@ {
        Some(7)
    } else if a == "-R"@ || a == "--recursive"@ {
        Some(8)
    } else {
        None
    }
}

pub open spec fn set_flag(f: LsFlags, id: nat) -> LsFlags {
    if id == 0 {
        LsFlags { all: true, ..f }
    } else if id == 1 {
        LsFlags { almost_all: true, ..f }
    } else if id == 2 {
        LsFlags { long_format: true, ..f }
    } else if id == 3 {
        LsFlags { human_readable: true, ..f }
    } else if id == 4 {
        LsFlags { one_per_line: true, ..f }
    } else if id == 5 {
        LsFlags { reverse: true, ..f }
    } else if id == 6 {
        LsFlags { by_time: true, ..f }
    } else if id == 7 {
        LsFlags { by_size: true, ..f }
    } else {
        LsFlags { recursive: true, ..f }
    }
}

/// The letters of a word such as `-la` from `j` on: the options they set,
/// or the first letter that is no option.
pub open spec fn letters(cs: Seq<char>, j: int, f: LsFlags) -> Result<LsFlags, char>
    decreases cs.len() - j,
{
    if j < 0 || j >= cs.len() {
        Ok(f)
    } else {
        match letter_id(cs[j]) {
            Some(id) => letters(cs, j + 1, set_flag(f, id)),
            None => Err(cs[j]),
        }
    }
}

/// What the words of an invocation say: the options and the paths, or the
/// first letter that is no option.
pub enum ArgsView {
    Run { flags: LsFlags, dirs: Seq<Seq<char>> },
    Unknown(char),
}

/// Reading the words from `i` on; after `--` every word is a path.
pub open spec fn scan(args: Seq<Seq<char>>, i: int, f: LsFlags, dirs: Seq<Seq<char>>) -> ArgsView
    decreases args.len() - i,
{
    if i < 0 || i >= args.len() {
        ArgsView::Run { flags: f, dirs }
    } else {
        let a = args[i];
        match word_id(a) {
            Some(id) => scan(args, i + 1, set_flag(f, id), dirs),
            None => if a == "--"@ {
                ArgsView::Run { flags: f, dirs: dirs + args.skip(i + 1) }
            } else if starts_with(a, "-"@) && a.len() > 1 {
                match letters(a, 1, f) {
                    Ok(f2) => scan(args, i + 1, f2, dirs),
                    Err(c) => ArgsView::Unknown(c),
                }
            } else {
                scan(args, i + 1, f, dirs.push(a))
            },
        }
    }
}

/// What the words of an invocation say.
pub enum LsArgs {
    Run { flags: LsFlags, dirs: Vec<String> },
    /// `ls: unknown option '-c'`, and ls fails.
    Unknown(char),
}

impl View for LsArgs {
    type V = ArgsView;

    open spec fn view(&self) -> ArgsView {
        match self {
            LsArgs::Run { flags, dirs } => ArgsView::Run { flags: *flags, dirs: views(dirs@) },
            LsArgs::Unknown(c) => ArgsView::Unknown(*c),
        }
    }
}

fn set_flag_exec(f: LsFlags, id: u8) -> (r: LsFlags)
    requires
        id <= 8,
    ensures
        r == set_flag(f, id as nat),
{
    if id == 0 {
        LsFlags { all: true, ..f }
    } else if id == 1 {
        LsFlags { almost_all: true, ..f }
    } else if id == 2 {
        LsFlags { long_format: true, ..f }
    } else if id == 3 {
        LsFlags { human_readable: true, ..f }
    } else if id == 4 {
        LsFlags { one_per_line: true, ..f }
    } else if id == 5 {
        LsFlags { reverse: true, ..f }
    } else if id == 6 {
        LsFlags { by_time: true, ..f }
    } else if id == 7 {
        LsFlags { by_size: true, ..f }
    } else {
        LsFlags { recursive: true, ..f }
    }
}

fn letter_id_exec(c: char) -> (r: Option<u8>)
    ensures
        match (r, letter_id(c)) {
            (Some(x), Some(y)) => x as nat == y && x <= 8,
            (None, None) => true,
            _ => false,
        },
{
    if c == 'a' {
        Some(0)
    } else if c == 'A' {
        Some(1)
    } else if c == 'l' {
        Some(2)
    } else if c == 'h' {
        Some(3)
    } else if c == '1' {
        Some(4)
    } else if c == 'r' {
        Some(5)
    } else if c == 't' {
        Some(6)
    } else if c == 'S' {
        Some(7)
    } else if c == 'R' {
        Some(8)
    } else {
        None
    }
}

fn word_id_exec(a: &[char]) -> (r: Option<u8>)
    ensures
        match (r, word_id(a@)) {
            (Some(x), Some(y)) => x as nat == y && x <= 8,
            (None, None) => true,
            _ => false,
        },
{
    if eq_lit(a, "-a") || eq_lit(a, "--all") {
        Some(0)
    } else if eq_lit(a, "-A") {
        Some(1)
    } else if eq_lit(a, "-l") {
        Some(2)
    } else if eq_lit(a, "-h") || eq_lit(a, "--human-readable") {
        Some(3)
    } else if eq_lit(a, "-1") {
        Some(4)
    } else if eq_lit(a, "-r") || eq_lit(a, "--reverse") {
        Some(5)
    } else if eq_lit(a, "-t") {
        Some(6)
    } else if eq_lit(a, "-S") {
        Some(7)
    } else if eq_lit(a, "-R") || eq_lit(a, "--recursive") {
        Some(8)
    } else {
        None
    }
}

fn letters_exec(cs: &[char], f_in: LsFlags) -> (r: Result<LsFlags, char>)
    ensures
        r == letters(cs@, 1, f_in),
{
    let mut f = f_in;
    let mut j: usize = 1;
    while j < cs.len()
        invariant
            1 <= j,
            letters(cs@, j as int, f) == letters(cs@, 1, f_in),
        decreases cs@.len() - j,
    {
        match letter_id_exec(cs[j]) {
            Some(id) => {
                f = set_flag_exec(f, id);
            },
            None => {
                return Err(cs[j]);
            },
        }
        j = j + 1;
    }
    Ok(f)
}

fn push_string(v: &mut Vec<String>, s: String)
    ensures
        views(final(v)@) == views(old(v)@).push(s@),
{
    let ghost sv = s@;
    v.push(s);
    assert(views(v@) =~= views(old(v)@).push(sv));
}

/// Reads the words of an invocation (see `scan`).
pub fn parse_args(args: &[String]) -> (r: LsArgs)
    ensures
        r@ == scan(views(args@), 0, no_flags(), seq![]),
{
    let ghost av = views(args@);
    let cs = chars_of_all(args);
    let n = args.len();
    let mut f = LsFlags {
        all: false,
        almost_all: false,
        long_format: false,
        human_readable: false,
        one_per_line: false,
        reverse: false,
        by_time: false,
        by_size: false,
        recursive: false,
    };
    let mut dirs: Vec<String> = Vec::new();
    assert(views(dirs@) =~= Seq::<Seq<char>>::empty());
    let mut i: usize = 0;
    while i < n
        invariant
            n == args@.len(),
            cs@.len() == n,
            av == views(args@),
            forall|k: int| 0 <= k < n ==> #[trigger] cs@[k]@ == args@[k]@,
            i <= n,
            scan(av, i as int, f, views(dirs@)) == scan(av, 0, no_flags(), seq![]),
        decreases n - i,
    {
        let a = cs[i].as_slice();
        assert(av[i as int] == a@);
        match word_id_exec(a) {
            Some(id) => {
                f = set_flag_exec(f, id);
            },
            None => {
                if eq_lit(a, "--") {
                    let ghost d0 = views(dirs@);
                    let mut k: usize = i + 1;
                    while k < n
                        invariant
                            i < k <= n,
                            n == args@.len(),
                            av == views(args@),
                            views(dirs@) == d0 + av.subrange(i + 1, k as int),
                        decreases n - k,
                    {
                        push_string(&mut dirs, args[k].clone());
                        assert(av.subrange(i + 1, k + 1) =~= av.subrange(i + 1, k as int).push(
                            av[k as int],
                        ));
                        k = k + 1;
                    }
                    assert(av.subrange(i + 1, n as int) =~= av.skip(i + 1));
                    return LsArgs::Run { flags: f, dirs };
                } else if starts_with_lit(a, "-") && a.len() > 1 {
                    match letters_exec(a, f) {
                        Ok(f2) => {
                            f = f2;
                        },
                        Err(c) => {
                            return LsArgs::Unknown(c);
                        },
                    }
                } else {
                    push_string(&mut dirs, args[i].clone());
                }
            },
        }
        i = i + 1;
    }
    LsArgs::Run { flags: f, dirs }
}

/// The paths listed: those named, else `.`.
pub fn targets(dirs: &Vec<String>) -> (r: Vec<String>)
    ensures
        views(r@) == if dirs@.len() == 0 {
            seq!["."@]
        } else {
            views(dirs@)
        },
{
    if dirs.len() == 0 {
        let mut r: Vec<String> = Vec::new();
        push_string(&mut r, to_string("."));
        assert(views(r@) =~= seq!["."@]);
        r
    } else {
        let r = dirs.clone();
        assert(views(r@) =~= views(dirs@));
        r
    }
}

/// Each listing is headed by its path: several paths, or `-R`.
pub fn show_headers(n_paths: usize, f: LsFlags) -> (r: bool)
    ensures
        r == (n_paths > 1 || f.recursive),
{
    n_paths > 1 || f.recursive
}


// ---------------------------------------------------------------------------
// A directory's entries
// ---------------------------------------------------------------------------

/// An entry of a directory, as read from the file system: its name (as
/// text, and as bytes, by which names are ordered), whether it is a
/// directory, its size and modification time (nanoseconds from the epoch)
/// where its metadata could be read, and its `-l` line where one was made.
pub struct LsEntry {
    pub name: String,
    pub name_bytes: Vec<u8>,
    pub is_dir: bool,
    pub size: Option<u64>,
    pub modified: Option<i128>,
    pub long_line: Option<String>,
}

pub struct EntryView {
    pub name: Seq<char>,
    pub name_bytes: Seq<u8>,
    pub is_dir: bool,
    pub size: Option<u64>,
    pub modified: Option<i128>,
    pub long_line: Option<Seq<char>>,
}

impl View for LsEntry {
    type V = EntryView;

    open spec fn view(&self) -> EntryView {
        EntryView {
            name: self.name@,
            name_bytes: self.name_bytes@,
            is_dir: self.is_dir,
            size: self.size,
            modified: self.modified,
            long_line: match self.long_line {
                Some(l) => Some(l@),
                None => None,
            },
        }
    }
}

pub open spec fn entry_views(v: Seq<LsEntry>) -> Seq<EntryView> {
    v.map_values(|e: LsEntry| e@)
}

/// How entries are ordered.
#[derive(PartialEq, Eq, Structural, Clone, Copy)]
pub enum SortKey {
    /// Newest first (`-t`); entries without a time come last.
    Time,
    /// Largest first (`-S`); entries without a size count as empty.
    Size,
    /// By name, byte by byte.
    Name,
}

pub open spec fn sort_key(f: LsFlags) -> SortKey {
    if f.by_time {
        SortKey::Time
    } else if f.by_size {
        SortKey::Size
    } else {
        SortKey::Name
    }
}

/// `a` comes after `b` byte by byte.
pub open spec fn bytes_after(a: Seq<u8>, b: Seq<u8>) -> bool
    decreases a.len(),
{
    if b.len() == 0 {
        a.len() > 0
    } else if a.len() == 0 {
        false
    } else if a[0] != b[0] {
        a[0] > b[0]
    } else {
        bytes_after(a.drop_first(), b.drop_first())
    }
}

/// `Option` order: nothing before something.
pub open spec fn time_after(a: Option<i128>, b: Option<i128>) -> bool {
    match (a, b) {
        (Some(x), Some(y)) => x > y,
        (Some(_), None) => true,
        _ => false,
    }
}

pub open spec fn size_of(e: EntryView) -> u64 {
    match e.size {
        Some(s) => s,
        None => 0,
    }
}

/// `a` goes after `b` in the order `k`.
pub open spec fn goes_after(k: SortKey, a: EntryView, b: EntryView) -> bool {
    match k {
        SortKey::Time => time_after(b.modified, a.modified),
        SortKey::Size => size_of(b) > size_of(a),
        SortKey::Name => bytes_after(a.name_bytes, b.name_bytes),
    }
}

/// `x` put into the ordered `s` after every entry it does not go before.
pub open spec fn insert_sorted(k: SortKey, s: Seq<EntryView>, x: EntryView) -> Seq<EntryView>
    decreases s.len(),
{
    if s.len() == 0 {
        seq![x]
    } else if goes_after(k, s.last(), x) {
        insert_sorted(k, s.drop_last(), x).push(s.last())
    } else {
        s.push(x)
    }
}

/// The entries in order `k`, entries that are equal in it keeping their
/// order (a stable sort).
pub open spec fn sort_entries(k: SortKey, s: Seq<EntryView>) -> Seq<EntryView>
    decreases s.len(),
{
    if s.len() == 0 {
        seq![]
    } else {
        insert_sorted(k, sort_entries(k, s.drop_last()), s.last())
    }
}

/// The entries shown: all under `-a` or `-A`, else those whose name does
/// not start with `.`.
pub open spec fn visible(f: LsFlags, e: EntryView) -> bool {
    f.all || f.almost_all || !starts_with(e.name, "."@)
}

/// The entries listed, in the order they are printed.
pub open spec fn shown_entries(f: LsFlags, es: Seq<EntryView>) -> Seq<EntryView> {
    let sorted = sort_entries(sort_key(f), es);
    let ordered = if f.reverse {
        sorted.reverse()
    } else {
        sorted
    };
    ordered.filter(|e: EntryView| visible(f, e))
}

/// The 512-byte blocks of the entries whose size is known.
pub open spec fn blocks(es: Seq<EntryView>) -> nat
    decreases es.len(),
{
    if es.len() == 0 {
        0
    } else {
        blocks(es.drop_last()) + match es.last().size {
            Some(s) => ((s + 511) / 512) as nat,
            None => 0,
        }
    }
}

/// The block count cannot be made: a size plus 511, or the total, does not
/// fit in a `u64`.
pub open spec fn blocks_overflow(es: Seq<EntryView>) -> bool {
    blocks(es) > u64::MAX || exists|k: int|
        0 <= k < es.len() && (#[trigger] es[k].size matches Some(s) && s + 511 > u64::MAX)
}

/// The name printed in the column layout: a directory's with a `/`.
pub open spec fn column_name(e: EntryView) -> Seq<char> {
    if e.is_dir {
        e.name + "/"@
    } else {
        e.name
    }
}

/// The greatest length in bytes of the names.
pub open spec fn max_width(ns: Seq<Seq<char>>) -> nat
    decreases ns.len(),
{
    if ns.len() == 0 {
        0
    } else {
        let m = max_width(ns.drop_last());
        if utf8_len(ns.last()) > m {
            utf8_len(ns.last())
        } else {
            m
        }
    }
}

/// Laying out the names from `i` on, `cols` to a line, each but the last
/// of a line padded to `w` characters.
pub open spec fn layout(
    ns: Seq<Seq<char>>,
    i: int,
    cols: nat,
    w: nat,
    cur: Seq<char>,
    out: Seq<Seq<char>>,
) -> Seq<Seq<char>>
    decreases ns.len() - i,
{
    if i < 0 || i >= ns.len() {
        out
    } else if cols == 1 || (i + 1) % (cols as int) == 0 || i == ns.len() - 1 {
        layout(ns, i + 1, cols, w, seq![], out.push(cur + ns[i]))
    } else {
        layout(ns, i + 1, cols, w, cur + pad_right(ns[i], w), out)
    }
}

/// The names in columns on 80-character lines: each column as wide as the
/// longest name (in bytes) and two more.
pub open spec fn columns(ns: Seq<Seq<char>>) -> Seq<Seq<char>> {
    if ns.len() == 0 {
        seq![]
    } else {
        let w: nat = max_width(ns) + 2;
        let cols: nat = if 80nat / w >= 1 {
            80nat / w
        } else {
            1
        };
        layout(ns, 0, cols, w, seq![], seq![])
    }
}

/// What is printed for a directory, and the subdirectories listed after it.
pub struct ListingView {
    pub lines: Seq<Seq<char>>,
    pub subdirs: Seq<Seq<char>>,
}

/// The listing of directory `dir` with entries `es`; `None` where the `-l`
/// block count overflows.
pub open spec fn listing_spec(dir: Seq<char>, f: LsFlags, es: Seq<EntryView>) -> Option<
    ListingView,
> {
    let shown = shown_entries(f, es);
    let subdirs = if f.recursive {
        shown.filter(|e: EntryView| e.is_dir).map_values(
            |e: EntryView| join_path_spec(dir, e.name),
        )
    } else {
        seq![]
    };
    if f.long_format {
        if blocks_overflow(shown) {
            None
        } else {
            Some(
                ListingView {
                    lines: seq!["total "@ + decimal(blocks(shown))] + shown.filter(
                        |e: EntryView| e.long_line is Some,
                    ).map_values(|e: EntryView| e.long_line->0),
                    subdirs,
                },
            )
        }
    } else if f.one_per_line {
        Some(ListingView { lines: shown.map_values(|e: EntryView| e.name), subdirs })
    } else {
        Some(
            ListingView {
                lines: columns(shown.map_values(|e: EntryView| column_name(e))),
                subdirs,
            },
        )
    }
}


fn bytes_after_exec(a: &[u8], b: &[u8]) -> (r: bool)
    ensures
        r == bytes_after(a@, b@),
{
    let mut i: usize = 0;
    assert(a@.skip(0) =~= a@ && b@.skip(0) =~= b@);
    loop
        invariant
            i <= a@.len(),
            i <= b@.len(),
            bytes_after(a@.skip(i as int), b@.skip(i as int)) == bytes_after(a@, b@),
        decreases a@.len() - i,
    {
        if i == b.len() {
            return i < a.len();
        }
        if i == a.len() {
            return false;
        }
        if a[i] != b[i] {
            return a[i] > b[i];
        }
        assert(a@.skip(i as int).drop_first() =~= a@.skip(i + 1));
        assert(b@.skip(i as int).drop_first() =~= b@.skip(i + 1));
        i = i + 1;
    }
}

fn goes_after_exec(k: SortKey, a: &LsEntry, b: &LsEntry) -> (r: bool)
    ensures
        r == goes_after(k, a@, b@),
{
    match k {
        SortKey::Time => match (b.modified, a.modified) {
            (Some(x), Some(y)) => x > y,
            (Some(_), None) => true,
            _ => false,
        },
        SortKey::Size => {
            let sa = match a.size {
                Some(s) => s,
                None => 0,
            };
            let sb = match b.size {
                Some(s) => s,
                None => 0,
            };
            sb > sa
        },
        SortKey::Name => bytes_after_exec(a.name_bytes.as_slice(), b.name_bytes.as_slice()),
    }
}

/// Inserting after the last entry that `x` does not go before.
proof fn lemma_insert_at(k: SortKey, s: Seq<EntryView>, x: EntryView, j: int)
    requires
        0 <= j <= s.len(),
        forall|t: int| j <= t < s.len() ==> goes_after(k, #[trigger] s[t], x),
        j == 0 || !goes_after(k, s[j - 1], x),
    ensures
        insert_sorted(k, s, x) == s.insert(j, x),
    decreases s.len(),
{
    if s.len() == 0 {
        assert(s.insert(j, x) =~= seq![x]);
    } else if j == s.len() {
        assert(s.insert(j, x) =~= s.push(x));
    } else {
        assert(goes_after(k, s[s.len() - 1], x));
        lemma_insert_at(k, s.drop_last(), x, j);
        assert(s.insert(j, x) =~= s.drop_last().insert(j, x).push(s.last()));
    }
}

/// Every name, and a `/` after it, takes fewer bytes than the largest
/// `isize`.
pub open spec fn names_fit(v: Seq<LsEntry>) -> bool {
    forall|k: int| 0 <= k < v.len() ==> utf8_len(#[trigger] v[k].name@) + 1 < isize::MAX
}

fn sort_exec(k: SortKey, entries: Vec<LsEntry>) -> (r: Vec<LsEntry>)
    requires
        names_fit(entries@),
    ensures
        entry_views(r@) == sort_entries(k, entry_views(entries@)),
        names_fit(r@),
{
    let ghost es = entries@;
    let ghost ev = entry_views(es);
    let n = entries.len();
    let mut src = entries;
    let mut rev: Vec<LsEntry> = Vec::new();
    while src.len() > 0
        invariant
            src@.len() + rev@.len() == n,
            n == es.len(),
            src@ =~= es.take(src@.len() as int),
            forall|t: int| 0 <= t < rev@.len() ==> #[trigger] rev@[t] == es[n - 1 - t],
        decreases src@.len(),
    {
        let e = src.pop().unwrap();
        rev.push(e);
    }
    let mut res: Vec<LsEntry> = Vec::new();
    assert(entry_views(res@) =~= sort_entries(k, ev.take(0)));
    while rev.len() > 0
        invariant
            rev@.len() <= n,
            n == es.len(),
            ev == entry_views(es),
            names_fit(es),
            forall|t: int| 0 <= t < rev@.len() ==> #[trigger] rev@[t] == es[n - 1 - t],
            entry_views(res@) == sort_entries(k, ev.take(n - rev@.len())),
            names_fit(res@),
        decreases rev@.len(),
    {
        let ghost i = n - rev@.len();
        let e = rev.pop().unwrap();
        assert(e == es[i]);
        assert(utf8_len(es[i].name@) + 1 < isize::MAX);
        let ghost rv = entry_views(res@);
        let mut j = res.len();
        while j > 0 && goes_after_exec(k, &res[j - 1], &e)
            invariant
                j <= res@.len(),
                rv == entry_views(res@),
                forall|t: int| j <= t < rv.len() ==> goes_after(k, #[trigger] rv[t], e@),
            decreases j,
        {
            j = j - 1;
        }
        proof {
            lemma_insert_at(k, rv, e@, j as int);
            assert(ev.take(i + 1).drop_last() =~= ev.take(i));
            assert(ev.take(i + 1).last() == e@);
        }
        let ghost old_res = res@;
        res.insert(j, e);
        proof {
            old_res.insert_ensures(j as int, e);
            assert(entry_views(res@) =~= rv.insert(j as int, e@));
            assert forall|t: int| 0 <= t < res@.len() implies utf8_len(#[trigger] res@[t].name@) + 1
                < isize::MAX by {
                if t < j {
                    assert(res@[t] == old_res[t]);
                } else if t > j {
                    assert(res@[t] == old_res[t - 1]);
                }
            }
        }
    }
    assert(ev.take(n as int) =~= ev);
    res
}

/// The entries of `src` from last to first, those visible under `f` only.
fn pop_visible(f: LsFlags, src: Vec<LsEntry>) -> (r: Vec<LsEntry>)
    requires
        names_fit(src@),
    ensures
        entry_views(r@) == entry_views(src@).reverse().filter(|e: EntryView| visible(f, e)),
        names_fit(r@),
{
    let ghost es = src@;
    let ghost target = entry_views(es).reverse();
    let ghost pred = |e: EntryView| visible(f, e);
    let n = src.len();
    let mut src = src;
    let mut r: Vec<LsEntry> = Vec::new();
    assert(target.take(0).filter(pred) =~= Seq::<EntryView>::empty());
    assert(entry_views(r@) =~= target.take(0).filter(pred));
    while src.len() > 0
        invariant
            n == es.len(),
            src@.len() <= n,
            src@ =~= es.take(src@.len() as int),
            names_fit(es),
            target == entry_views(es).reverse(),
            pred == (|e: EntryView| visible(f, e)),
            entry_views(r@) == target.take(n - src@.len()).filter(pred),
            names_fit(r@),
        decreases src@.len(),
    {
        let ghost i = n - src@.len();
        let e = src.pop().unwrap();
        assert(e == es[n - 1 - i]);
        assert(target[i] == e@);
        proof {
            reveal_with_fuel(Seq::filter, 2);
            assert(target.take(i + 1).drop_last() =~= target.take(i));
        }
        let nc = chars_of(e.name.as_str());
        let vis = f.all || f.almost_all || !starts_with_lit(nc.as_slice(), ".");
        let ghost before = r@;
        if vis {
            r.push(e);
            assert(entry_views(r@) =~= entry_views(before).push(target[i]));
            assert forall|t: int| 0 <= t < r@.len() implies utf8_len(#[trigger] r@[t].name@) + 1
                < isize::MAX by {
                if t < before.len() {
                    assert(r@[t] == before[t]);
                }
            }
        }
        assert(entry_views(r@) =~= target.take(i + 1).filter(pred));
    }
    assert(target.take(n as int) =~= target);
    r
}

/// The entries of `v` from last to first.
fn reversed(v: Vec<LsEntry>) -> (r: Vec<LsEntry>)
    requires
        names_fit(v@),
    ensures
        entry_views(r@) == entry_views(v@).reverse(),
        names_fit(r@),
{
    let ghost es = v@;
    let n = v.len();
    let mut v = v;
    let mut r: Vec<LsEntry> = Vec::new();
    while v.len() > 0
        invariant
            n == es.len(),
            v@ =~= es.take(v@.len() as int),
            r@.len() + v@.len() == n,
            names_fit(es),
            forall|t: int| 0 <= t < r@.len() ==> #[trigger] r@[t] == es[n - 1 - t],
        decreases v@.len(),
    {
        let e = v.pop().unwrap();
        r.push(e);
    }
    assert(entry_views(r@) =~= entry_views(es).reverse());
    r
}

proof fn lemma_blocks_prefix(es: Seq<EntryView>, i: int)
    requires
        0 <= i <= es.len(),
    ensures
        blocks(es.take(i)) <= blocks(es),
    decreases es.len() - i,
{
    if i < es.len() {
        lemma_blocks_prefix(es, i + 1);
        assert(es.take(i + 1).drop_last() =~= es.take(i));
    } else {
        assert(es.take(i) =~= es);
    }
}

fn blocks_exec(es: &Vec<LsEntry>) -> (r: Option<u64>)
    ensures
        match r {
            Some(n) => !blocks_overflow(entry_views(es@)) && n as nat == blocks(entry_views(es@)),
            None => blocks_overflow(entry_views(es@)),
        },
{
    let ghost ev = entry_views(es@);
    let mut total: u64 = 0;
    let mut i: usize = 0;
    while i < es.len()
        invariant
            i <= es@.len(),
            ev == entry_views(es@),
            total as nat == blocks(ev.take(i as int)),
            forall|t: int| 0 <= t < i ==> !(#[trigger] ev[t].size matches Some(s) && s + 511
                > u64::MAX),
        decreases es@.len() - i,
    {
        assert(ev[i as int] == es@[i as int]@);
        assert(ev.take(i + 1).drop_last() =~= ev.take(i as int));
        match es[i].size {
            Some(s) => {
                if s > u64::MAX - 511 {
                    assert(ev[i as int].size matches Some(x) && x + 511 > u64::MAX);
                    return None;
                }
                let b = (s + 511) / 512;
                if total > u64::MAX - b {
                    proof {
                        lemma_blocks_prefix(ev, i + 1);
                    }
                    return None;
                }
                total = total + b;
            },
            None => {},
        }
        i = i + 1;
    }
    assert(ev.take(es@.len() as int) =~= ev);
    Some(total)
}

fn max_width_exec(ns: &Vec<Vec<char>>) -> (r: u64)
    requires
        forall|k: int| 0 <= k < ns@.len() ==> utf8_len(#[trigger] ns@[k]@) < isize::MAX,
    ensures
        r as nat == max_width(vviews(ns@)),
        r < isize::MAX,
{
    let ghost nv = vviews(ns@);
    let mut m: u64 = 0;
    let mut i: usize = 0;
    while i < ns.len()
        invariant
            i <= ns@.len(),
            nv == vviews(ns@),
            forall|k: int| 0 <= k < ns@.len() ==> utf8_len(#[trigger] ns@[k]@) < isize::MAX,
            m as nat == max_width(nv.take(i as int)),
            m < isize::MAX,
        decreases ns@.len() - i,
    {
        assert(nv[i as int] == ns@[i as int]@);
        assert(nv.take(i + 1).drop_last() =~= nv.take(i as int));
        let w = match utf8_len_exec(ns[i].as_slice()) {
            Some(w) => w,
            None => {
                assert(false);
                0
            },
        };
        if w > m {
            m = w;
        }
        i = i + 1;
    }
    assert(nv.take(ns@.len() as int) =~= nv);
    m
}

fn columns_exec(ns: &Vec<Vec<char>>) -> (r: Vec<String>)
    requires
        forall|k: int| 0 <= k < ns@.len() ==> utf8_len(#[trigger] ns@[k]@) < isize::MAX,
    ensures
        views(r@) == columns(vviews(ns@)),
{
    let ghost nv = vviews(ns@);
    let mut out: Vec<String> = Vec::new();
    if ns.len() == 0 {
        assert(views(out@) =~= Seq::<Seq<char>>::empty());
        return out;
    }
    let m = max_width_exec(ns);
    let w = m + 2;
    let cols: u64 = if 80 / w >= 1 {
        80 / w
    } else {
        1
    };
    let ghost gcols: nat = cols as nat;
    assert(gcols == (if 80nat / (w as nat) >= 1 {
        80nat / (w as nat)
    } else {
        1nat
    }));
    let wu = w as usize;
    let n = ns.len();
    let mut cur: Vec<char> = Vec::new();
    assert(views(out@) =~= Seq::<Seq<char>>::empty());
    let mut i: usize = 0;
    while i < n
        invariant
            n == ns@.len(),
            nv == vviews(ns@),
            i <= n,
            cols >= 1,
            gcols == cols as nat,
            wu as nat == w as nat,
            layout(nv, i as int, gcols, w as nat, cur@, views(out@)) == layout(
                nv,
                0,
                gcols,
                w as nat,
                seq![],
                seq![],
            ),
        decreases n - i,
    {
        assert(nv[i as int] == ns@[i as int]@);
        let ci = (i as u64) + 1;
        if cols == 1 || ci % cols == 0 || i == n - 1 {
            let mut line = copy_chars(cur.as_slice());
            push_all(&mut line, ns[i].as_slice());
            push_string(&mut out, string_of(line.as_slice()));
            cur = Vec::new();
            assert(cur@ =~= Seq::<char>::empty());
        } else {
            let p = pad_right_exec(ns[i].as_slice(), wu);
            push_all(&mut cur, p.as_slice());
        }
        i = i + 1;
    }
    out
}

/// What is printed for a directory, and its subdirectories, to be listed
/// after it under `-R`.
pub struct Listing {
    pub lines: Vec<String>,
    pub subdirs: Vec<String>,
}

impl View for Listing {
    type V = ListingView;

    open spec fn view(&self) -> ListingView {
        ListingView { lines: views(self.lines@), subdirs: views(self.subdirs@) }
    }
}

/// The listing of the directory `dir` whose entries are `entries` (see
/// `listing_spec`).
pub fn list_entries(dir: &str, f: LsFlags, entries: Vec<LsEntry>) -> (r: Option<Listing>)
    requires
        names_fit(entries@),
    ensures
        match r {
            Some(l) => listing_spec(dir@, f, entry_views(entries@)) == Some(l@),
            None => listing_spec(dir@, f, entry_views(entries@)) is None,
        },
{
    let ghost ev = entry_views(entries@);
    let k = if f.by_time {
        SortKey::Time
    } else if f.by_size {
        SortKey::Size
    } else {
        SortKey::Name
    };
    let sorted = sort_exec(k, entries);
    let src = if f.reverse {
        sorted
    } else {
        reversed(sorted)
    };
    let shown = pop_visible(f, src);
    let ghost sorted_v = sort_entries(sort_key(f), ev);
    proof {
        assert(sorted_v.reverse().reverse() =~= sorted_v);
    }
    let ghost sv = entry_views(shown@);
    assert(sv == shown_entries(f, ev));
    let ghost dirpred = |e: EntryView| e.is_dir;
    let ghost mk = |e: EntryView| join_path_spec(dir@, e.name);
    let mut subdirs: Vec<String> = Vec::new();
    if f.recursive {
        let mut i: usize = 0;
        assert(sv.take(0).filter(dirpred) =~= Seq::<EntryView>::empty());
        assert(views(subdirs@) =~= sv.take(0).filter(dirpred).map_values(mk));
        while i < shown.len()
            invariant
                i <= shown@.len(),
                sv == entry_views(shown@),
                dirpred == (|e: EntryView| e.is_dir),
                mk == (|e: EntryView| join_path_spec(dir@, e.name)),
                views(subdirs@) == sv.take(i as int).filter(dirpred).map_values(mk),
            decreases shown@.len() - i,
        {
            assert(sv[i as int] == shown@[i as int]@);
            proof {
                reveal_with_fuel(Seq::filter, 2);
                assert(sv.take(i + 1).drop_last() =~= sv.take(i as int));
            }
            let ghost before = sv.take(i as int).filter(dirpred);
            if shown[i].is_dir {
                push_string(&mut subdirs, join_path(dir, shown[i].name.as_str()));
                assert(sv.take(i + 1).filter(dirpred) =~= before.push(sv[i as int]));
                assert(views(subdirs@) =~= before.push(sv[i as int]).map_values(mk));
            } else {
                assert(sv.take(i + 1).filter(dirpred) =~= before);
            }
            i = i + 1;
        }
        assert(sv.take(shown@.len() as int) =~= sv);
    } else {
        assert(views(subdirs@) =~= Seq::<Seq<char>>::empty());
    }
    let ghost subs = views(subdirs@);
    let mut lines: Vec<String> = Vec::new();
    if f.long_format {
        let total = match blocks_exec(&shown) {
            Some(t) => t,
            None => {
                return None;
            },
        };
        let mut head = chars_of("total ");
        let d = fmt_dec(total);
        push_all(&mut head, d.as_slice());
        push_string(&mut lines, string_of(head.as_slice()));
        let ghost haslong = |e: EntryView| e.long_line is Some;
        let ghost getlong = |e: EntryView| e.long_line->0;
        let ghost l0 = views(lines@);
        assert(sv.take(0).filter(haslong) =~= Seq::<EntryView>::empty());
        assert(views(lines@) =~= l0 + sv.take(0).filter(haslong).map_values(getlong));
        let mut i: usize = 0;
        while i < shown.len()
            invariant
                i <= shown@.len(),
                sv == entry_views(shown@),
                haslong == (|e: EntryView| e.long_line is Some),
                getlong == (|e: EntryView| e.long_line->0),
                views(lines@) == l0 + sv.take(i as int).filter(haslong).map_values(getlong),
            decreases shown@.len() - i,
        {
            assert(sv[i as int] == shown@[i as int]@);
            proof {
                reveal_with_fuel(Seq::filter, 2);
                assert(sv.take(i + 1).drop_last() =~= sv.take(i as int));
            }
            let ghost before = sv.take(i as int).filter(haslong);
            match &shown[i].long_line {
                Some(l) => {
                    push_string(&mut lines, l.clone());
                    assert(sv.take(i + 1).filter(haslong) =~= before.push(sv[i as int]));
                    assert(views(lines@) =~= l0 + before.push(sv[i as int]).map_values(getlong));
                },
                None => {
                    assert(sv.take(i + 1).filter(haslong) =~= before);
                },
            }
            i = i + 1;
        }
        assert(sv.take(shown@.len() as int) =~= sv);
        assert(views(lines@) =~= seq!["total "@ + decimal(blocks(sv))] + sv.filter(
            haslong,
        ).map_values(getlong));
    } else if f.one_per_line {
        let mut i: usize = 0;
        while i < shown.len()
            invariant
                i <= shown@.len(),
                sv == entry_views(shown@),
                views(lines@) == sv.take(i as int).map_values(|e: EntryView| e.name),
            decreases shown@.len() - i,
        {
            assert(sv[i as int] == shown@[i as int]@);
            push_string(&mut lines, shown[i].name.clone());
            assert(sv.take(i + 1).map_values(|e: EntryView| e.name) =~= sv.take(
                i as int,
            ).map_values(|e: EntryView| e.name).push(sv[i as int].name));
            i = i + 1;
        }
        assert(sv.take(shown@.len() as int) =~= sv);
    } else {
        let mut ns: Vec<Vec<char>> = Vec::new();
        let mut i: usize = 0;
        while i < shown.len()
            invariant
                i <= shown@.len(),
                sv == entry_views(shown@),
                names_fit(shown@),
                vviews(ns@) == sv.take(i as int).map_values(|e: EntryView| column_name(e)),
                forall|t: int| 0 <= t < ns@.len() ==> utf8_len(#[trigger] ns@[t]@) < isize::MAX,
            decreases shown@.len() - i,
        {
            assert(sv[i as int] == shown@[i as int]@);
            let mut c = chars_of(shown[i].name.as_str());
            assert(utf8_len(shown@[i as int].name@) + 1 < isize::MAX);
            if shown[i].is_dir {
                let ghost c0 = c@;
                c.push('/');
                assert(c@.drop_last() =~= c0);
                assert(utf8_len(c@) == utf8_len(c0) + 1);
                assert(c@ =~= c0 + "/"@) by {
                    reveal_strlit("/");
                }
            }
            let ghost nb = ns@;
            ns.push(c);
            assert(vviews(ns@) =~= vviews(nb).push(column_name(sv[i as int])));
            assert(sv.take(i + 1).map_values(|e: EntryView| column_name(e)) =~= sv.take(
                i as int,
            ).map_values(|e: EntryView| column_name(e)).push(column_name(sv[i as int])));
            i = i + 1;
        }
        assert(sv.take(shown@.len() as int) =~= sv);
        lines = columns_exec(&ns);
    }
    Some(Listing { lines, subdirs })
}

/// What is printed for a path that is a file: its `-l` line where one was
/// made, else its name.
pub fn file_lines(path: &str, f: LsFlags, long_line: Option<String>) -> (r: Vec<String>)
    ensures
        views(r@) == if f.long_format {
            match long_line {
                Some(l) => seq![l@],
                None => seq![],
            }
        } else {
            seq![file_name_spec(path@)]
        },
{
    let mut r: Vec<String> = Vec::new();
    if f.long_format {
        match long_line {
            Some(l) => push_string(&mut r, l),
            None => {},
        }
    } else {
        push_string(&mut r, file_name(path));
    }
    assert(views(r@) =~= if f.long_format {
        match long_line {
            Some(l) => seq![l@],
            None => seq![],
        }
    } else {
        seq![file_name_spec(path@)]
    });
    r
}


/// The permission letters of a mode: for owner, group and others, `r`,
/// `w`, `x` where the bit is set, else `-` (bits 8 down to 0).
pub open spec fn perms_spec(mode: u32) -> Seq<char> {
    Seq::new(
        9,
        |k: int|
            if mode & (1u32 << ((8 - k) as u32)) != 0 {
                if k % 3 == 0 {
                    'r'
                } else if k % 3 == 1 {
                    'w'
                } else {
                    'x'
                }
            } else {
                '-'
            },
    )
}

/// The nine permission letters of `mode`.
pub fn format_permissions_unix(mode: u32) -> (r: String)
    ensures
        r@ == perms_spec(mode),
{
    let mut v: Vec<char> = Vec::new();
    let mut k: u32 = 0;
    while k < 9
        invariant
            k <= 9,
            v@ == perms_spec(mode).take(k as int),
        decreases 9 - k,
    {
        let bit: u32 = 8 - k;
        let c = if mode & (1u32 << bit) != 0 {
            if k % 3 == 0 {
                'r'
            } else if k % 3 == 1 {
                'w'
            } else {
                'x'
            }
        } else {
            '-'
        };
        v.push(c);
        assert(v@ =~= perms_spec(mode).take(k + 1));
        k = k + 1;
    }
    assert(perms_spec(mode).take(9) =~= perms_spec(mode));
    string_of(v.as_slice())
}

/// The size column of a `-l` line: the size right-aligned in eight places.
pub fn size_column(size: u64) -> (r: String)
    ensures
        r@ == pad_left(decimal(size as nat), 8, ' '),
{
    let d = fmt_dec(size);
    string_of(pad_left_exec(d.as_slice(), 8, ' ').as_slice())
}

/// A `-l` line: the type letter (`d`, `l` or `-`), the permissions, the
/// size and time columns, and the name, followed by `-> TARGET` for a
/// symbolic link whose target could be read.
pub open spec fn long_line_spec(
    is_dir: bool,
    is_symlink: bool,
    mode: u32,
    size_text: Seq<char>,
    modified: Seq<char>,
    name: Seq<char>,
    target: Option<Seq<char>>,
) -> Seq<char> {
    let t = if is_dir {
        'd'
    } else if is_symlink {
        'l'
    } else {
        '-'
    };
    let shown = if is_symlink && target is Some {
        name + " -> "@ + target->0
    } else {
        name
    };
    seq![t] + perms_spec(mode) + " "@ + size_text + " "@ + modified + " "@ + shown
}

/// The `-l` line of an entry (see `long_line_spec`).
pub fn long_entry_line(
    is_dir: bool,
    is_symlink: bool,
    mode: u32,
    size_text: &str,
    modified: &str,
    name: &str,
    target: Option<String>,
) -> (r: String)
    ensures
        r@ == long_line_spec(
            is_dir,
            is_symlink,
            mode,
            size_text@,
            modified@,
            name@,
            match target {
                Some(t) => Some(t@),
                None => None,
            },
        ),
{
    let mut v: Vec<char> = Vec::new();
    v.push(
        if is_dir {
            'd'
        } else if is_symlink {
            'l'
        } else {
            '-'
        },
    );
    let p = format_permissions_unix(mode);
    push_all(&mut v, chars_of(p.as_str()).as_slice());
    push_str(&mut v, " ");
    push_all(&mut v, chars_of(size_text).as_slice());
    push_str(&mut v, " ");
    push_all(&mut v, chars_of(modified).as_slice());
    push_str(&mut v, " ");
    push_all(&mut v, chars_of(name).as_slice());
    if is_symlink {
        match &target {
            Some(t) => {
                push_str(&mut v, " -> ");
                push_all(&mut v, chars_of(t.as_str()).as_slice());
            },
            None => {},
        }
    }
    let ghost tv = match target {
        Some(t) => Some(t@),
        None => None,
    };
    assert(v@ =~= long_line_spec(is_dir, is_symlink, mode, size_text@, modified@, name@, tv));
    string_of(v.as_slice())
}

/// No entry goes after one that follows it.
pub open spec fn ordered(k: SortKey, s: Seq<EntryView>) -> bool {
    forall|i: int, j: int| 0 <= i < j < s.len() ==> !goes_after(k, #[trigger] s[i], #[trigger] s[j])
}

proof fn lemma_bytes_irreflexive(a: Seq<u8>)
    ensures
        !bytes_after(a, a),
    decreases a.len(),
{
    if a.len() > 0 {
        lemma_bytes_irreflexive(a.drop_first());
    }
}

proof fn lemma_bytes_total(a: Seq<u8>, b: Seq<u8>)
    ensures
        bytes_after(a, b) ==> !bytes_after(b, a),
        bytes_after(a, b) || bytes_after(b, a) || a == b,
    decreases a.len(),
{
    if a.len() > 0 && b.len() > 0 {
        lemma_bytes_total(a.drop_first(), b.drop_first());
        if a[0] == b[0] && a.drop_first() == b.drop_first() {
            assert(a =~= seq![a[0]] + a.drop_first());
            assert(b =~= seq![b[0]] + b.drop_first());
        }
    } else if a.len() == 0 && b.len() == 0 {
        assert(a =~= b);
    }
}

proof fn lemma_bytes_trans(a: Seq<u8>, b: Seq<u8>, c: Seq<u8>)
    ensures
        bytes_after(a, b) && bytes_after(b, c) ==> bytes_after(a, c),
    decreases a.len(),
{
    if a.len() > 0 && b.len() > 0 && c.len() > 0 {
        lemma_bytes_trans(a.drop_first(), b.drop_first(), c.drop_first());
    }
}

proof fn lemma_bytes_order(a: Seq<u8>, b: Seq<u8>, c: Seq<u8>)
    ensures
        !bytes_after(a, a),
        bytes_after(a, b) ==> !bytes_after(b, a),
        bytes_after(a, b) || bytes_after(b, a) || a == b,
        bytes_after(a, b) && bytes_after(b, c) ==> bytes_after(a, c),
{
    lemma_bytes_irreflexive(a);
    lemma_bytes_total(a, b);
    lemma_bytes_trans(a, b, c);
}

/// The orders are strict weak orders: never after itself, never both ways,
/// and not going after is transitive.
proof fn lemma_goes_after_order(k: SortKey, a: EntryView, b: EntryView, c: EntryView)
    ensures
        !goes_after(k, a, a),
        goes_after(k, a, b) ==> !goes_after(k, b, a),
        !goes_after(k, a, b) && !goes_after(k, b, c) ==> !goes_after(k, a, c),
{
    match k {
        SortKey::Name => {
            lemma_bytes_order(a.name_bytes, b.name_bytes, c.name_bytes);
            lemma_bytes_order(b.name_bytes, a.name_bytes, c.name_bytes);
            lemma_bytes_order(b.name_bytes, c.name_bytes, a.name_bytes);
            lemma_bytes_order(c.name_bytes, a.name_bytes, b.name_bytes);
            lemma_bytes_order(a.name_bytes, c.name_bytes, b.name_bytes);
            lemma_bytes_order(c.name_bytes, b.name_bytes, a.name_bytes);
        },
        _ => {},
    }
}

proof fn lemma_insert_sorted(k: SortKey, s: Seq<EntryView>, x: EntryView)
    requires
        ordered(k, s),
    ensures
        ordered(k, insert_sorted(k, s, x)),
        insert_sorted(k, s, x).to_multiset() == s.to_multiset().insert(x),
    decreases s.len(),
{
    broadcast use vstd::seq_lib::group_to_multiset_ensures;
    if s.len() == 0 {
        assert(seq![x] =~= Seq::<EntryView>::empty().push(x));
    } else {
        let last = s.last();
        let init = s.drop_last();
        assert(s =~= init.push(last));
        assert(ordered(k, init)) by {
            assert forall|i: int, j: int| 0 <= i < j < init.len() implies !goes_after(k, #[trigger] init[i], #[trigger] init[j]) by {
                assert(init[i] == s[i] && init[j] == s[j]);
            }
        }
        if goes_after(k, last, x) {
            lemma_insert_sorted(k, init, x);
            let m = insert_sorted(k, init, x);
            let r = m.push(last);
            lemma_goes_after_order(k, last, x, x);
            assert forall|i: int, j: int| 0 <= i < j < r.len() implies !goes_after(k, #[trigger] r[i], #[trigger] r[j]) by {
                if j == r.len() - 1 {
                    assert(r[j] == last);
                    let e = r[i];
                    assert(e == m[i]);
                    assert(m.contains(e));
                    assert(m.to_multiset().count(e) > 0);
                    if e != x {
                        assert(init.to_multiset().count(e) > 0);
                        assert(init.contains(e));
                        let p = choose|p: int| 0 <= p < init.len() && init[p] == e;
                        assert(s[p] == e && s[s.len() - 1] == last);
                    }
                } else {
                    assert(r[i] == m[i] && r[j] == m[j]);
                }
            }
        } else {
            let r = s.push(x);
            assert forall|i: int, j: int| 0 <= i < j < r.len() implies !goes_after(k, #[trigger] r[i], #[trigger] r[j]) by {
                if j == r.len() - 1 {
                    assert(r[j] == x);
                    if i < s.len() - 1 {
                        assert(r[i] == s[i]);
                        assert(!goes_after(k, s[i], s[s.len() - 1]));
                        lemma_goes_after_order(k, s[i], last, x);
                    }
                } else {
                    assert(r[i] == s[i] && r[j] == s[j]);
                }
            }
        }
    }
}

/// Listing order: the entries come out ordered by the key (each going after
/// none of those that follow it), and they are the entries given, each as
/// many times as it was given.
pub proof fn lemma_sort_entries(k: SortKey, s: Seq<EntryView>)
    ensures
        ordered(k, sort_entries(k, s)),
        sort_entries(k, s).to_multiset() == s.to_multiset(),
    decreases s.len(),
{
    broadcast use vstd::seq_lib::group_to_multiset_ensures;
    if s.len() == 0 {
        assert(sort_entries(k, s) =~= s);
    } else {
        lemma_sort_entries(k, s.drop_last());
        lemma_insert_sorted(k, sort_entries(k, s.drop_last()), s.last());
        assert(s =~= s.drop_last().push(s.last()));
    }
}


proof fn lemma_filter_keeps_all(s: Seq<EntryView>, pred: spec_fn(EntryView) -> bool)
    requires
        forall|i: int| 0 <= i < s.len() ==> pred(#[trigger] s[i]),
    ensures
        s.filter(pred) == s,
    decreases s.len(),
{
    reveal(Seq::filter);
    if s.len() > 0 {
        lemma_filter_keeps_all(s.drop_last(), pred);
        assert(s.drop_last().push(s.last()) =~= s);
    }
}

/// With `-a` or `-A` no entry is left out: the entries listed are the
/// entries given, each as many times as given; without them, exactly the
/// entries whose names do not start with `.` are listed, each as many
/// times as given.
pub proof fn lemma_hidden_entries(f: LsFlags, es: Seq<EntryView>)
    ensures
        (f.all || f.almost_all) ==> shown_entries(f, es).to_multiset() == es.to_multiset(),
        (f.all || f.almost_all) ==> shown_entries(f, es).len() == es.len(),
        !(f.all || f.almost_all) ==> forall|e: EntryView|
            #[trigger] shown_entries(f, es).to_multiset().count(e) == if starts_with(e.name, "."@) {
                0
            } else {
                es.to_multiset().count(e)
            },
{
    broadcast use vstd::seq_lib::group_to_multiset_ensures;
    let sorted = sort_entries(sort_key(f), es);
    lemma_sort_entries(sort_key(f), es);
    let ordered = if f.reverse {
        sorted.reverse()
    } else {
        sorted
    };
    lemma_reverse_multiset(sorted);
    assert(ordered.to_multiset() == es.to_multiset());
    let pred = |e: EntryView| visible(f, e);
    if f.all || f.almost_all {
        lemma_filter_keeps_all(ordered, pred);
        assert(shown_entries(f, es) == ordered);
        assert(ordered.to_multiset().len() == ordered.len());
        assert(es.to_multiset().len() == es.len());
    } else {
        lemma_filter_count(ordered, pred);
        assert forall|e: EntryView|
            #[trigger] shown_entries(f, es).to_multiset().count(e) == if starts_with(e.name, "."@) {
                0
            } else {
                es.to_multiset().count(e)
            } by {
            assert(pred(e) == !starts_with(e.name, "."@));
        }
    }
}

proof fn lemma_filter_count(s: Seq<EntryView>, pred: spec_fn(EntryView) -> bool)
    ensures
        forall|e: EntryView|
            #[trigger] s.filter(pred).to_multiset().count(e) == if pred(e) {
                s.to_multiset().count(e)
            } else {
                0
            },
    decreases s.len(),
{
    broadcast use {vstd::seq_lib::group_to_multiset_ensures, vstd::multiset::group_multiset_axioms};
    reveal(Seq::filter);
    if s.len() > 0 {
        let d = s.drop_last();
        lemma_filter_count(d, pred);
        assert(d.push(s.last()) =~= s);
        let sub = d.filter(pred);
        assert(s.filter(pred) == if pred(s.last()) {
            sub.push(s.last())
        } else {
            sub
        });
        assert(s.to_multiset() == d.to_multiset().insert(s.last()));
        assert forall|e: EntryView| #[trigger] s.filter(pred).to_multiset().count(e) == if pred(e) {
            s.to_multiset().count(e)
        } else {
            0
        } by {
            if pred(s.last()) {
                assert(s.filter(pred).to_multiset() == sub.to_multiset().insert(s.last()));
            }
        }
    }
}

proof fn lemma_reverse_multiset(s: Seq<EntryView>)
    ensures
        s.reverse().to_multiset() == s.to_multiset(),
    decreases s.len(),
{
    broadcast use vstd::seq_lib::group_to_multiset_ensures;
    if s.len() > 0 {
        lemma_reverse_multiset(s.drop_last());
        let r = s.reverse();
        assert(r =~= s.drop_last().reverse().insert(0, s.last()));
        assert(s =~= s.drop_last().push(s.last()));
    }
}

} // verus!
