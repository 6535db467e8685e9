//! grep: the options of an invocation, the regular expression they make,
//! and which lines of a file are printed and how.
use vstd::prelude::*;
use crate::num::{decimal, fmt_dec, parse_dec, parse_dec_exec};
use crate::text::{
    chars_of, chars_of_all, concat, copy_chars, eq_lit, lines, lines_exec, push_all, push_str, slice_chars,
    ends_with, starts_with, starts_with_lit, string_of, to_string, views, vviews,
};

verus! {

/// The on/off settings of an invocation.
#[derive(Clone, Copy)]
pub struct GrepFlags {
    pub ignore_case: bool,
    pub invert: bool,
    pub count_only: bool,
    pub line_numbers: bool,
    pub files_with_matches: bool,
    pub files_without_matches: bool,
    pub recursive: bool,
    pub fixed_string: bool,
    pub whole_word: bool,
    pub whole_line: bool,
    pub only_matching: bool,
    pub quiet: bool,
    /// `-H` (`Some(true)`) or `-h` (`Some(false)`), the last one given.
    pub force_filename: Option<bool>,
}

/// The settings that the options of an invocation make.
pub struct GrepOptions {
    pub flags: GrepFlags,
    pub max_count: Option<usize>,
    pub after_context: usize,
    pub before_context: usize,
    pub patterns: Vec<String>,
    pub pattern_files: Vec<String>,
    pub files: Vec<String>,
    pub pattern_set: bool,
}

pub struct OptionsView {
    pub flags: GrepFlags,
    pub max_count: Option<usize>,
    pub after_context: usize,
    pub before_context: usize,
    pub patterns: Seq<Seq<char>>,
    pub pattern_files: Seq<Seq<char>>,
    pub files: Seq<Seq<char>>,
    pub pattern_set: bool,
}

impl View for GrepOptions {
    type V = OptionsView;

    open spec fn view(&self) -> OptionsView {
        OptionsView {
            flags: self.flags,
            max_count: self.max_count,
            after_context: self.after_context,
            before_context: self.before_context,
            patterns: views(self.patterns@),
            pattern_files: views(self.pattern_files@),
            files: views(self.files@),
            pattern_set: self.pattern_set,
        }
    }
}

pub open spec fn no_flags() -> GrepFlags {
    GrepFlags {
        ignore_case: false,
        invert: false,
        count_only: false,
        line_numbers: false,
        files_with_matches: false,
        files_without_matches: false,
        recursive: false,
        fixed_string: false,
        whole_word: false,
        whole_line: false,
        only_matching: false,
        quiet: false,
        force_filename: None,
    }
}

pub open spec fn initial_options() -> OptionsView {
    OptionsView {
        flags: no_flags(),
        max_count: None,
        after_context: 0,
        before_context: 0,
        patterns: seq![],
        pattern_files: seq![],
        files: seq![],
        pattern_set: false,
    }
}

/// A count: its decimal value, or 0 when it is not a `usize`.
pub open spec fn count_or_zero(s: Seq<char>) -> usize {
    match parse_dec(s, usize::MAX as nat) {
        Some(v) => v as usize,
        None => 0,
    }
}

/// All characters are ASCII digits.
pub open spec fn all_digits(s: Seq<char>) -> bool {
    forall|i: int| 0 <= i < s.len() ==> '0' <= #[trigger] s[i] && s[i] <= '9'
}

/// `-A2`, `-B3`, `-C1`: the letter followed by at least one digit.
pub open spec fn attached(a: Seq<char>, letter: Seq<char>) -> bool {
    a.len() > 2 && starts_with(a, letter) && all_digits(a.skip(2))
}

/// The setting a flag number turns on: 0 `-i`, 1 `-v`, 2 `-c`, 3 `-n`,
/// 4 `-l`, 5 `-L`, 6 `-r`, 7 `-F`, 8 `-w`, 9 `-x`, 10 `-o`, 11 `-q`,
/// 12 `-H`, 13 `-h`; other numbers change nothing.
pub open spec fn set_flag(o: GrepFlags, id: nat) -> GrepFlags {
    if id == 0 {
        GrepFlags { ignore_case: true, ..o }
    } else if id == 1 {
        GrepFlags { invert: true, ..o }
    } else if id == 2 {
        GrepFlags { count_only: true, ..o }
    } else if id == 3 {
        GrepFlags { line_numbers: true, ..o }
    } else if id == 4 {
        GrepFlags { files_with_matches: true, ..o }
    } else if id == 5 {
        GrepFlags { files_without_matches: true, ..o }
    } else if id == 6 {
        GrepFlags { recursive: true, ..o }
    } else if id == 7 {
        GrepFlags { fixed_string: true, ..o }
    } else if id == 8 {
        GrepFlags { whole_word: true, ..o }
    } else if id == 9 {
        GrepFlags { whole_line: true, ..o }
    } else if id == 10 {
        GrepFlags { only_matching: true, ..o }
    } else if id == 11 {
        GrepFlags { quiet: true, ..o }
    } else if id == 12 {
        GrepFlags { force_filename: Some(true), ..o }
    } else if id == 13 {
        GrepFlags { force_filename: Some(false), ..o }
    } else {
        o
    }
}

/// The flag number of a letter in a combined word such as `-rni` (14 for
/// letters that change nothing).
pub open spec fn letter_flag(c: char) -> nat {
    if c == 'i' {
        0
    } else if c == 'v' {
        1
    } else if c == 'c' {
        2
    } else if c == 'n' {
        3
    } else if c == 'l' {
        4
    } else if c == 'L' {
        5
    } else if c == 'r' || c == 'R' {
        6
    } else if c == 'F' {
        7
    } else if c == 'w' {
        8
    } else if c == 'x' {
        9
    } else if c == 'o' {
        10
    } else if c == 'q' {
        11
    } else if c == 'H' {
        12
    } else if c == 'h' {
        13
    } else {
        14
    }
}

/// The settings a combined short-flag word such as `-rni` makes, from
/// character `j` on: a letter that takes a value ends the word.
pub open spec fn combined(cs: Seq<char>, j: int, o: GrepFlags) -> GrepFlags
    decreases cs.len() - j,
{
    if j < 0 || j >= cs.len() {
        o
    } else {
        let c = cs[j];
        if c == 'm' || c == 'A' || c == 'B' || c == 'C' || c == 'e' || c == 'f' {
            o
        } else {
            combined(cs, j + 1, set_flag(o, letter_flag(c)))
        }
    }
}

/// The flag number of a word that takes no value (14 for the accepted
/// words that change nothing), if it is one.
pub open spec fn flag_word(a: Seq<char>) -> Option<nat> {
    if a == "-i"@ || a == "--ignore-case"@ {
        Some(0)
    } else if a == "-v"@ || a == "--invert-match"@ {
        Some(1)
    } else if a == "-c"@ || a == "--count"@ {
        Some(2)
    } else if a == "-n"@ || a == "--line-number"@ {
        Some(3)
    } else if a == "-l"@ || a == "--files-with-matches"@ {
        Some(4)
    } else if a == "-L"@ || a == "--files-without-match"@ {
        Some(5)
    } else if a == "-r"@ || a == "-R"@ || a == "--recursive"@ {
        Some(6)
    } else if a == "-F"@ || a == "--fixed-strings"@ {
        Some(7)
    } else if a == "-w"@ || a == "--word-regexp"@ {
        Some(8)
    } else if a == "-x"@ || a == "--line-regexp"@ {
        Some(9)
    } else if a == "-o"@ || a == "--only-matching"@ {
        Some(10)
    } else if a == "-q"@ || a == "--quiet"@ || a == "--silent"@ {
        Some(11)
    } else if a == "-H"@ || a == "--with-filename"@ {
        Some(12)
    } else if a == "-h"@ || a == "--no-filename"@ {
        Some(13)
    } else if a == "-E"@ || a == "--extended-regexp"@ || a == "-P"@ || a == "--perl-regexp"@ || a
        == "-G"@ || a == "--basic-regexp"@ {
        Some(14)
    } else {
        None
    }
}

/// The value-taking word `a`: 0 `-m`, 1 `-A`, 2 `-B`, 3 `-C`, 4 `-e`, 5 `-f`.
pub open spec fn value_word(a: Seq<char>) -> Option<nat> {
    if a == "-m"@ || a == "--max-count"@ {
        Some(0)
    } else if a == "-A"@ || a == "--after-context"@ {
        Some(1)
    } else if a == "-B"@ || a == "--before-context"@ {
        Some(2)
    } else if a == "-C"@ || a == "--context"@ {
        Some(3)
    } else if a == "-e"@ || a == "--regexp"@ {
        Some(4)
    } else if a == "-f"@ || a == "--file"@ {
        Some(5)
    } else {
        None
    }
}

/// The settings after the value-taking word number `id` with value `v`.
pub open spec fn with_value(id: nat, v: Seq<char>, o: OptionsView) -> OptionsView {
    if id == 0 {
        OptionsView {
            max_count: match parse_dec(v, usize::MAX as nat) {
                Some(n) => Some(n as usize),
                None => None,
            },
            ..o
        }
    } else if id == 1 {
        OptionsView { after_context: count_or_zero(v), ..o }
    } else if id == 2 {
        OptionsView { before_context: count_or_zero(v), ..o }
    } else if id == 3 {
        OptionsView { before_context: count_or_zero(v), after_context: count_or_zero(v), ..o }
    } else if id == 4 {
        OptionsView { patterns: o.patterns.push(v), pattern_set: true, ..o }
    } else {
        OptionsView { pattern_files: o.pattern_files.push(v), pattern_set: true, ..o }
    }
}

/// The settings after reading `args[i..]`.
pub open spec fn scan(args: Seq<Seq<char>>, i: int, o: OptionsView) -> OptionsView
    decreases args.len() - i,
{
    if i < 0 || i >= args.len() {
        o
    } else {
        let a = args[i];
        match flag_word(a) {
            Some(id) => scan(args, i + 1, OptionsView { flags: set_flag(o.flags, id), ..o }),
            None => if value_word(a) is Some {
                if i + 1 < args.len() {
                    scan(args, i + 2, with_value(value_word(a)->0, args[i + 1], o))
                } else {
                    o
                }
            } else if attached(a, "-A"@) {
                scan(args, i + 1, OptionsView { after_context: count_or_zero(a.skip(2)), ..o })
            } else if attached(a, "-B"@) {
                scan(args, i + 1, OptionsView { before_context: count_or_zero(a.skip(2)), ..o })
            } else if attached(a, "-C"@) {
                scan(
                    args,
                    i + 1,
                    OptionsView {
                        before_context: count_or_zero(a.skip(2)),
                        after_context: count_or_zero(a.skip(2)),
                        ..o
                    },
                )
            } else if starts_with(a, "-"@) && a.len() > 1 && !starts_with(a, "--"@) {
                scan(args, i + 1, OptionsView { flags: combined(a, 1, o.flags), ..o })
            } else if !o.pattern_set {
                scan(args, i + 1, OptionsView { patterns: o.patterns.push(a), pattern_set: true, ..o })
            } else {
                scan(args, i + 1, OptionsView { files: o.files.push(a), ..o })
            },
        }
    }
}

fn count_or_zero_exec(s: &[char]) -> (r: usize)
    ensures
        r == count_or_zero(s@),
{
    match parse_dec_exec(s, usize::MAX as u64) {
        Some(v) => v as usize,
        None => 0,
    }
}

fn all_digits_from(s: &[char], from: usize) -> (r: bool)
    requires
        from <= s@.len(),
    ensures
        r == all_digits(s@.skip(from as int)),
{
    let mut i: usize = from;
    while i < s.len()
        invariant
            from <= i <= s@.len(),
            forall|k: int| from <= k < i ==> '0' <= #[trigger] s@[k] && s@[k] <= '9',
        decreases s@.len() - i,
    {
        if !('0' <= s[i] && s[i] <= '9') {
            assert(s@.skip(from as int)[i - from] == s@[i as int]);
            return false;
        }
        i = i + 1;
    }
    assert forall|k: int| 0 <= k < s@.skip(from as int).len() implies '0' <= #[trigger] s@.skip(
        from as int,
    )[k] && s@.skip(from as int)[k] <= '9' by {
        assert(s@.skip(from as int)[k] == s@[from + k]);
    }
    true
}

fn attached_exec(a: &[char], letter: &str) -> (r: bool)
    ensures
        r == attached(a@, letter@),
{
    a.len() > 2 && starts_with_lit(a, letter) && all_digits_from(a, 2)
}

fn set_flag_exec(o: &mut GrepFlags, id: u8)
    ensures
        *final(o) == set_flag(*old(o), id as nat),
{
    let f = *o;
    if id == 0 {
        *o = GrepFlags { ignore_case: true, ..f };
    } else if id == 1 {
        *o = GrepFlags { invert: true, ..f };
    } else if id == 2 {
        *o = GrepFlags { count_only: true, ..f };
    } else if id == 3 {
        *o = GrepFlags { line_numbers: true, ..f };
    } else if id == 4 {
        *o = GrepFlags { files_with_matches: true, ..f };
    } else if id == 5 {
        *o = GrepFlags { files_without_matches: true, ..f };
    } else if id == 6 {
        *o = GrepFlags { recursive: true, ..f };
    } else if id == 7 {
        *o = GrepFlags { fixed_string: true, ..f };
    } else if id == 8 {
        *o = GrepFlags { whole_word: true, ..f };
    } else if id == 9 {
        *o = GrepFlags { whole_line: true, ..f };
    } else if id == 10 {
        *o = GrepFlags { only_matching: true, ..f };
    } else if id == 11 {
        *o = GrepFlags { quiet: true, ..f };
    } else if id == 12 {
        *o = GrepFlags { force_filename: Some(true), ..f };
    } else if id == 13 {
        *o = GrepFlags { force_filename: Some(false), ..f };
    }
}

fn letter_flag_exec(c: char) -> (r: u8)
    ensures
        r as nat == letter_flag(c),
{
    if c == 'i' {
        0
    } else if c == 'v' {
        1
    } else if c == 'c' {
        2
    } else if c == 'n' {
        3
    } else if c == 'l' {
        4
    } else if c == 'L' {
        5
    } else if c == 'r' || c == 'R' {
        6
    } else if c == 'F' {
        7
    } else if c == 'w' {
        8
    } else if c == 'x' {
        9
    } else if c == 'o' {
        10
    } else if c == 'q' {
        11
    } else if c == 'H' {
        12
    } else if c == 'h' {
        13
    } else {
        14
    }
}

fn apply_combined(cs: &[char], o: &mut GrepFlags)
    ensures
        *final(o) == combined(cs@, 1, *old(o)),
{
    let mut j: usize = 1;
    while j < cs.len()
        invariant
            1 <= j,
            combined(cs@, j as int, *o) == combined(cs@, 1, *old(o)),
        decreases cs@.len() - j,
    {
        let c = cs[j];
        if c == 'm' || c == 'A' || c == 'B' || c == 'C' || c == 'e' || c == 'f' {
            return;
        }
        set_flag_exec(o, letter_flag_exec(c));
        j = j + 1;
    }
}

fn flag_word_exec(a: &[char]) -> (r: Option<u8>)
    ensures
        match (r, flag_word(a@)) {
            (Some(x), Some(y)) => x as nat == y,
            (None, None) => true,
            _ => false,
        },
{
    if eq_lit(a, "-i") || eq_lit(a, "--ignore-case") {
        Some(0)
    } else if eq_lit(a, "-v") || eq_lit(a, "--invert-match") {
        Some(1)
    } else if eq_lit(a, "-c") || eq_lit(a, "--count") {
        Some(2)
    } else if eq_lit(a, "-n") || eq_lit(a, "--line-number") {
        Some(3)
    } else if eq_lit(a, "-l") || eq_lit(a, "--files-with-matches") {
        Some(4)
    } else if eq_lit(a, "-L") || eq_lit(a, "--files-without-match") {
        Some(5)
    } else if eq_lit(a, "-r") || eq_lit(a, "-R") || eq_lit(a, "--recursive") {
        Some(6)
    } else if eq_lit(a, "-F") || eq_lit(a, "--fixed-strings") {
        Some(7)
    } else if eq_lit(a, "-w") || eq_lit(a, "--word-regexp") {
        Some(8)
    } else if eq_lit(a, "-x") || eq_lit(a, "--line-regexp") {
        Some(9)
    } else if eq_lit(a, "-o") || eq_lit(a, "--only-matching") {
        Some(10)
    } else if eq_lit(a, "-q") || eq_lit(a, "--quiet") || eq_lit(a, "--silent") {
        Some(11)
    } else if eq_lit(a, "-H") || eq_lit(a, "--with-filename") {
        Some(12)
    } else if eq_lit(a, "-h") || eq_lit(a, "--no-filename") {
        Some(13)
    } else if eq_lit(a, "-E") || eq_lit(a, "--extended-regexp") || eq_lit(a, "-P") || eq_lit(
        a,
        "--perl-regexp",
    ) || eq_lit(a, "-G") || eq_lit(a, "--basic-regexp") {
        Some(14)
    } else {
        None
    }
}

fn value_word_exec(a: &[char]) -> (r: Option<u8>)
    ensures
        match (r, value_word(a@)) {
            (Some(x), Some(y)) => x as nat == y,
            (None, None) => true,
            _ => false,
        },
{
    if eq_lit(a, "-m") || eq_lit(a, "--max-count") {
        Some(0)
    } else if eq_lit(a, "-A") || eq_lit(a, "--after-context") {
        Some(1)
    } else if eq_lit(a, "-B") || eq_lit(a, "--before-context") {
        Some(2)
    } else if eq_lit(a, "-C") || eq_lit(a, "--context") {
        Some(3)
    } else if eq_lit(a, "-e") || eq_lit(a, "--regexp") {
        Some(4)
    } else if eq_lit(a, "-f") || eq_lit(a, "--file") {
        Some(5)
    } else {
        None
    }
}

fn push_view(v: &mut Vec<String>, s: String)
    ensures
        views(final(v)@) == views(old(v)@).push(s@),
{
    v.push(s);
    assert(views(v@) =~= views(old(v)@).push(s@));
}

fn apply_value(id: u8, v: &[char], value: &String, o: &mut GrepOptions)
    requires
        value@ == v@,
    ensures
        final(o)@ == with_value(id as nat, v@, old(o)@),
{
    if id == 0 {
        o.max_count = match parse_dec_exec(v, usize::MAX as u64) {
            Some(n) => Some(n as usize),
            None => None,
        };
    } else if id == 1 {
        o.after_context = count_or_zero_exec(v);
    } else if id == 2 {
        o.before_context = count_or_zero_exec(v);
    } else if id == 3 {
        let n = count_or_zero_exec(v);
        o.before_context = n;
        o.after_context = n;
    } else if id == 4 {
        push_view(&mut o.patterns, value.clone());
        o.pattern_set = true;
    } else {
        push_view(&mut o.pattern_files, value.clone());
        o.pattern_set = true;
    }
}

/// Reads the word at `i`, and the value after it where it takes one;
/// gives the position of the next word, or `None` where a value-taking
/// word is the last one.
fn scan_step(args: &[String], cs: &Vec<Vec<char>>, i: usize, o: &mut GrepOptions) -> (next:
    Option<usize>)
    requires
        i < args@.len(),
        cs@.len() == args@.len(),
        forall|k: int| 0 <= k < args@.len() ==> #[trigger] cs@[k]@ == args@[k]@,
    ensures
        match next {
            Some(n) => i < n <= args@.len() && scan(views(args@), n as int, final(o)@) == scan(
                views(args@),
                i as int,
                old(o)@,
            ),
            None => final(o)@ == scan(views(args@), i as int, old(o)@),
        },
{
    let ghost sv = views(args@);
    let n = args.len();
    let a = cs[i].as_slice();
    assert(a@ == sv[i as int]);
    let fw = flag_word_exec(a);
    if fw.is_some() {
        set_flag_exec(&mut o.flags, fw.unwrap());
        return Some(i + 1);
    }
    let vw = value_word_exec(a);
    if vw.is_some() {
        if i + 1 < n {
            assert(cs@[i + 1]@ == sv[i + 1]);
            apply_value(vw.unwrap(), cs[i + 1].as_slice(), &args[i + 1], o);
            return Some(i + 2);
        } else {
            return None;
        }
    }
    if attached_exec(a, "-A") {
        let rest = slice_chars(a, 2, a.len());
        assert(rest@ =~= a@.skip(2));
        o.after_context = count_or_zero_exec(rest.as_slice());
    } else if attached_exec(a, "-B") {
        let rest = slice_chars(a, 2, a.len());
        assert(rest@ =~= a@.skip(2));
        o.before_context = count_or_zero_exec(rest.as_slice());
    } else if attached_exec(a, "-C") {
        let rest = slice_chars(a, 2, a.len());
        assert(rest@ =~= a@.skip(2));
        let n = count_or_zero_exec(rest.as_slice());
        o.before_context = n;
        o.after_context = n;
    } else if starts_with_lit(a, "-") && a.len() > 1 && !starts_with_lit(a, "--") {
        apply_combined(a, &mut o.flags);
    } else if !o.pattern_set {
        push_view(&mut o.patterns, args[i].clone());
        o.pattern_set = true;
    } else {
        push_view(&mut o.files, args[i].clone());
    }
    Some(i + 1)
}

/// Reads the options of a grep invocation (see `scan`).
pub fn parse_args(args: &[String]) -> (o: GrepOptions)
    ensures
        o@ == scan(views(args@), 0, initial_options()),
{
    let ghost sv = views(args@);
    let cs = chars_of_all(args);
    let mut o = GrepOptions {
        flags: GrepFlags {
            ignore_case: false,
            invert: false,
            count_only: false,
            line_numbers: false,
            files_with_matches: false,
            files_without_matches: false,
            recursive: false,
            fixed_string: false,
            whole_word: false,
            whole_line: false,
            only_matching: false,
            quiet: false,
            force_filename: None,
        },
        max_count: None,
        after_context: 0,
        before_context: 0,
        patterns: Vec::new(),
        pattern_files: Vec::new(),
        files: Vec::new(),
        pattern_set: false,
    };
    assert(views(o.patterns@) =~= Seq::<Seq<char>>::empty());
    assert(views(o.pattern_files@) =~= Seq::<Seq<char>>::empty());
    assert(views(o.files@) =~= Seq::<Seq<char>>::empty());
    assert(o@ =~= initial_options());
    let mut i: usize = 0;
    while i < args.len()
        invariant
            cs@.len() == args@.len(),
            sv == views(args@),
            forall|k: int| 0 <= k < args@.len() ==> #[trigger] cs@[k]@ == args@[k]@,
            i <= args@.len(),
            scan(sv, i as int, o@) == scan(sv, 0, initial_options()),
        decreases args@.len() - i,
    {
        match scan_step(args, &cs, i, &mut o) {
            Some(n) => {
                i = n;
            },
            None => {
                return o;
            },
        }
    }
    o
}

/// The non-empty lines of a pattern file's text, added to the patterns.
pub fn add_pattern_lines(patterns: &mut Vec<String>, content: &str)
    ensures
        views(final(patterns)@) == views(old(patterns)@) + lines(content@).filter(
            |l: Seq<char>| l.len() > 0,
        ),
{
    let c = chars_of(content);
    let ls = lines_exec(c.as_slice());
    let ghost lv = vviews(ls@);
    let ghost base = views(patterns@);
    let ghost pred = |l: Seq<char>| l.len() > 0;
    let mut i: usize = 0;
    assert(lv.take(0).filter(pred) =~= Seq::<Seq<char>>::empty());
    assert(views(patterns@) =~= base + lv.take(0).filter(pred));
    while i < ls.len()
        invariant
            i <= ls@.len(),
            lv == vviews(ls@),
            lv == lines(content@),
            pred == (|l: Seq<char>| l.len() > 0),
            views(patterns@) == base + lv.take(i as int).filter(pred),
        decreases ls@.len() - i,
    {
        assert(lv[i as int] == ls@[i as int]@);
        proof {
            reveal_with_fuel(Seq::filter, 2);
            assert(lv.take(i + 1).drop_last() =~= lv.take(i as int));
        }
        if ls[i].len() > 0 {
            push_view(patterns, string_of(ls[i].as_slice()));
        }
        assert(views(patterns@) =~= base + lv.take(i + 1).filter(pred));
        i = i + 1;
    }
    assert(lv.take(ls@.len() as int) =~= lv);
}


// ---------------------------------------------------------------------------
// The regular expression
// ---------------------------------------------------------------------------

/// The characters that have a meaning in a regular expression.
pub open spec fn is_meta(c: char) -> bool {
    c == '\\' || c == '.' || c == '+' || c == '*' || c == '?' || c == '(' || c == ')' || c
        == '|' || c == '[' || c == ']' || c == '{' || c == '}' || c == '^' || c == '$' || c
        == '#' || c == '&' || c == '-' || c == '~'
}

/// `s` with a backslash before each character that has a meaning in a
/// regular expression, so that it matches itself.
pub open spec fn escaped(s: Seq<char>) -> Seq<char>
    decreases s.len(),
{
    if s.len() == 0 {
        seq![]
    } else if is_meta(s.last()) {
        escaped(s.drop_last()) + seq!['\\', s.last()]
    } else {
        escaped(s.drop_last()).push(s.last())
    }
}

/// Trusted: `regex::escape` (regex_syntax's `escape_into`), which copies
/// the text and puts a backslash before each meta character.
#[verifier::external_body]
fn escape(s: &str) -> (r: String)
    ensures
        r@ == escaped(s@),
{
    regex::escape(s)
}

/// The alternatives joined by `|`.
pub open spec fn join_bar(ps: Seq<Seq<char>>) -> Seq<char>
    decreases ps.len(),
{
    if ps.len() == 0 {
        seq![]
    } else if ps.len() == 1 {
        ps[0]
    } else {
        join_bar(ps.drop_last()) + seq!['|'] + ps.last()
    }
}

/// The patterns as they go into the expression: escaped under `-F`.
pub open spec fn pattern_pieces(o: OptionsView) -> Seq<Seq<char>> {
    if o.flags.fixed_string {
        o.patterns.map_values(|p: Seq<char>| escaped(p))
    } else {
        o.patterns
    }
}

/// The regular expression of an invocation: the alternatives, anchored to
/// the whole line under `-x` or to word boundaries under `-w`, and case
/// insensitive under `-i`.
pub open spec fn pattern_text(o: OptionsView) -> Seq<char> {
    let raw = join_bar(pattern_pieces(o));
    let framed = if o.flags.whole_line {
        "^(?:"@ + raw + ")$"@
    } else if o.flags.whole_word {
        "\\b(?:"@ + raw + ")\\b"@
    } else {
        raw
    };
    if o.flags.ignore_case {
        "(?i)"@ + framed
    } else {
        framed
    }
}

/// The regular expression text of an invocation, or `Err("missing pattern")`
/// when it names no pattern.
pub fn build_pattern(o: &GrepOptions) -> (r: Result<String, String>)
    ensures
        match r {
            Ok(p) => o@.patterns.len() > 0 && p@ == pattern_text(o@),
            Err(e) => o@.patterns.len() == 0 && e@ == "missing pattern"@,
        },
{
    if o.patterns.len() == 0 {
        return Err(to_string("missing pattern"));
    }
    let ghost ps = pattern_pieces(o@);
    let mut raw: Vec<char> = Vec::new();
    let mut i: usize = 0;
    while i < o.patterns.len()
        invariant
            0 < o@.patterns.len(),
            i <= o@.patterns.len(),
            ps == pattern_pieces(o@),
            ps.len() == o@.patterns.len(),
            raw@ == join_bar(ps.take(i as int)),
        decreases o@.patterns.len() - i,
    {
        let piece: Vec<char> = if o.flags.fixed_string {
            let e = escape(o.patterns[i].as_str());
            chars_of(e.as_str())
        } else {
            chars_of(o.patterns[i].as_str())
        };
        assert(piece@ == ps[i as int]);
        assert(ps.take(i + 1).drop_last() =~= ps.take(i as int));
        if i > 0 {
            raw.push('|');
        } else {
            assert(raw@ =~= seq![]);
        }
        push_all(&mut raw, piece.as_slice());
        i = i + 1;
        assert(raw@ =~= join_bar(ps.take(i as int)));
    }
    assert(ps.take(ps.len() as int) =~= ps);
    let mut framed: Vec<char> = Vec::new();
    if o.flags.ignore_case {
        push_str(&mut framed, "(?i)");
    }
    let ghost head = framed@;
    if o.flags.whole_line {
        push_str(&mut framed, "^(?:");
        push_all(&mut framed, raw.as_slice());
        push_str(&mut framed, ")$");
        assert(framed@ =~= head + ("^(?:"@ + raw@ + ")$"@));
    } else if o.flags.whole_word {
        push_str(&mut framed, "\\b(?:");
        push_all(&mut framed, raw.as_slice());
        push_str(&mut framed, ")\\b");
        assert(framed@ =~= head + ("\\b(?:"@ + raw@ + ")\\b"@));
    } else {
        push_all(&mut framed, raw.as_slice());
    }
    assert(framed@ =~= pattern_text(o@));
    Ok(string_of(framed.as_slice()))
}

#[verifier::external_type_specification]
#[verifier::external_body]
pub struct ExRegex(regex::Regex);

/// A compiled regular expression, with the text it was compiled from.
pub struct Matcher {
    re: regex::Regex,
    source: Ghost<Seq<char>>,
}

impl Matcher {
    /// The text the expression was compiled from.
    pub closed spec fn pattern(&self) -> Seq<char> {
        self.source@
    }
}

/// What `regex::Regex::new` says of a pattern: `None` when it compiles,
/// else the text of its error.
pub uninterp spec fn regex_error(pattern: Seq<char>) -> Option<Seq<char>>;

/// Whether the expression compiled from `pattern` matches somewhere in
/// `text` (`regex::Regex::is_match`).
pub uninterp spec fn regex_is_match(pattern: Seq<char>, text: Seq<char>) -> bool;

/// The texts of the successive non-overlapping matches of the expression
/// compiled from `pattern` in `text` (`regex::Regex::find_iter`).
pub uninterp spec fn regex_find_all(pattern: Seq<char>, text: Seq<char>) -> Seq<Seq<char>>;

/// Trusted: `regex::Regex::new`, whose result depends on the pattern alone;
/// on failure its error is turned into its text. Only this function makes
/// a `Matcher`, so the expression in one is always the one compiled from
/// its `pattern()`.
#[verifier::external_body]
fn compile(pattern: &str) -> (r: Result<Matcher, String>)
    ensures
        match r {
            Ok(m) => regex_error(pattern@) is None && m.pattern() == pattern@,
            Err(e) => regex_error(pattern@) == Some(e@),
        },
{
    match regex::Regex::new(pattern) {
        Ok(re) => Ok(Matcher { re, source: Ghost(pattern@) }),
        Err(e) => Err(e.to_string()),
    }
}

/// Trusted: `regex::Regex::is_match` on the expression of `m`.
#[verifier::external_body]
fn is_match(m: &Matcher, text: &str) -> (r: bool)
    ensures
        r == regex_is_match(m.pattern(), text@),
{
    m.re.is_match(text)
}

/// Trusted: `regex::Regex::find_iter` on the expression of `m`, each match
/// taken as its text (`Match::as_str`).
#[verifier::external_body]
fn find_all(m: &Matcher, text: &str) -> (r: Vec<String>)
    ensures
        views(r@) == regex_find_all(m.pattern(), text@),
{
    let mut v: Vec<String> = Vec::new();
    for found in m.re.find_iter(text) {
        v.push(found.as_str().to_string());
    }
    v
}

/// The expression of an invocation, compiled; or the message grep gives:
/// `missing pattern`, or `invalid pattern: ` and the error's text.
pub fn prepare_matcher(o: &GrepOptions) -> (r: Result<Matcher, String>)
    ensures
        o@.patterns.len() == 0 ==> (r matches Err(e) && e@ == "missing pattern"@),
        o@.patterns.len() > 0 ==> match regex_error(pattern_text(o@)) {
            None => (r matches Ok(m) && m.pattern() == pattern_text(o@)),
            Some(msg) => (r matches Err(e) && e@ == "invalid pattern: "@ + msg),
        },
{
    match build_pattern(o) {
        Err(e) => Err(e),
        Ok(p) => match compile(p.as_str()) {
            Ok(m) => Ok(m),
            Err(msg) => {
                let mut t = chars_of("invalid pattern: ");
                let mc = chars_of(msg.as_str());
                push_all(&mut t, mc.as_slice());
                Err(string_of(t.as_slice()))
            },
        },
    }
}


// ---------------------------------------------------------------------------
// The lines of one file
// ---------------------------------------------------------------------------

/// The lines of a file as read: `None` for a line that could not be read
/// as text (it is skipped, but still counted).
pub open spec fn line_views(ls: Seq<Option<String>>) -> Seq<Option<Seq<char>>> {
    ls.map_values(|x: Option<String>|
        match x {
            Some(l) => Some(l@),
            None => None,
        })
}

pub open spec fn find_views(fs: Seq<Vec<String>>) -> Seq<Seq<Seq<char>>> {
    fs.map_values(|v: Vec<String>| views(v@))
}

/// Context lines are asked for (`-A`, `-B`, `-C`).
pub open spec fn context_on(o: OptionsView) -> bool {
    o.before_context > 0 || o.after_context > 0
}

/// What goes before an output line: the file name and the line number,
/// each followed by `sep`, where they are shown.
pub open spec fn line_prefix(name: Seq<char>, show: bool, numbers: bool, k: int, sep: char) -> Seq<
    char,
> {
    (if show {
        name.push(sep)
    } else {
        seq![]
    }) + (if numbers {
        decimal((k + 1) as nat).push(sep)
    } else {
        seq![]
    })
}

/// The output for a selected line `k`: under `-o` (without `-v`) one line
/// per match, else the line itself.
pub open spec fn hit_lines(
    o: OptionsView,
    name: Seq<char>,
    show: bool,
    k: int,
    line: Seq<char>,
    found: Seq<Seq<char>>,
) -> Seq<Seq<char>> {
    let pre = line_prefix(name, show, o.flags.line_numbers, k, ':');
    if o.flags.only_matching && !o.flags.invert {
        found.map_values(|m: Seq<char>| pre + m)
    } else {
        seq![pre + line]
    }
}

/// Where a file's lines have been read to.
pub struct ScanState {
    pub count: nat,
    pub matched: bool,
    pub quit: bool,
    /// The lines kept for context output, and the positions of the selected ones.
    pub ctx: Seq<Seq<char>>,
    pub idxs: Seq<int>,
    pub out: Seq<Seq<char>>,
}

pub open spec fn scan_start() -> ScanState {
    ScanState { count: 0, matched: false, quit: false, ctx: seq![], idxs: seq![], out: seq![] }
}

/// Reading the lines from `k` on. `hits[k]`: the expression matches line
/// `k`; `finds[k]`: its matches there. A line is selected when it matches,
/// or under `-v` when it does not. Reading stops at a selected line past
/// the `-m` count, and under `-q` at the first selected line.
pub open spec fn scan_lines(
    o: OptionsView,
    name: Seq<char>,
    show: bool,
    lines: Seq<Option<Seq<char>>>,
    hits: Seq<bool>,
    finds: Seq<Seq<Seq<char>>>,
    k: int,
    st: ScanState,
) -> ScanState
    decreases lines.len() - k,
{
    if k < 0 || k >= lines.len() {
        st
    } else {
        match lines[k] {
            None => scan_lines(o, name, show, lines, hits, finds, k + 1, st),
            Some(line) => {
                let sel = hits[k] != o.flags.invert;
                let st1 = if context_on(o) {
                    ScanState {
                        ctx: st.ctx.push(line),
                        idxs: if sel {
                            st.idxs.push(k)
                        } else {
                            st.idxs
                        },
                        ..st
                    }
                } else {
                    st
                };
                if !sel {
                    scan_lines(o, name, show, lines, hits, finds, k + 1, st1)
                } else if o.max_count is Some && st1.count >= o.max_count->0 {
                    st1
                } else if o.flags.quiet {
                    ScanState { count: st1.count + 1, matched: true, quit: true, ..st1 }
                } else {
                    let st2 = ScanState { count: st1.count + 1, matched: true, ..st1 };
                    if !o.flags.files_with_matches && !o.flags.files_without_matches
                        && !o.flags.count_only && !context_on(o) {
                        scan_lines(
                            o,
                            name,
                            show,
                            lines,
                            hits,
                            finds,
                            k + 1,
                            ScanState {
                                out: st2.out + hit_lines(o, name, show, k, line, finds[k]),
                                ..st2
                            },
                        )
                    } else {
                        scan_lines(o, name, show, lines, hits, finds, k + 1, st2)
                    }
                }
            },
        }
    }
}

/// The lines around selected line `idx` that are printed: from `before`
/// lines ahead of it (or the first) up to, not including, `after + 1` lines
/// on (or the end).
pub open spec fn window(idx: int, before: nat, after: nat, len: nat) -> (int, int) {
    (
        if idx >= before {
            idx - before
        } else {
            0
        },
        if idx + after + 1 < len {
            idx + after + 1
        } else {
            len as int
        },
    )
}

/// The window of `idx` cannot be taken: its end overflows, or it starts
/// past its end (a position beyond the lines kept).
pub open spec fn window_fails(idx: int, before: nat, after: nat, len: nat) -> bool {
    idx + after + 1 > usize::MAX || window(idx, before, after, len).0 > window(
        idx,
        before,
        after,
        len,
    ).1
}

/// The context output so far: the positions printed, the greatest of them,
/// and the lines.
pub struct CtxState {
    pub printed: Set<int>,
    pub hi: int,
    pub out: Seq<Seq<char>>,
}

/// Printing positions `j..end` of the window of `idx`, each once: `:`
/// after the name and number of the selected line, `-` for the others.
pub open spec fn print_range(
    ctx: Seq<Seq<char>>,
    idx: int,
    j: int,
    end: int,
    name: Seq<char>,
    show: bool,
    numbers: bool,
    st: CtxState,
) -> CtxState
    decreases end - j,
{
    if j >= end {
        st
    } else if st.printed.contains(j) {
        print_range(ctx, idx, j + 1, end, name, show, numbers, st)
    } else {
        let sep = if j == idx {
            ':'
        } else {
            '-'
        };
        print_range(
            ctx,
            idx,
            j + 1,
            end,
            name,
            show,
            numbers,
            CtxState {
                printed: st.printed.insert(j),
                hi: if j > st.hi {
                    j
                } else {
                    st.hi
                },
                out: st.out.push(line_prefix(name, show, numbers, j, sep) + ctx[j]),
            },
        )
    }
}

/// The context output for the selected positions from `t` on: `--` before a
/// window that starts more than one line past everything printed.
pub open spec fn print_context(
    ctx: Seq<Seq<char>>,
    idxs: Seq<int>,
    t: int,
    o: OptionsView,
    name: Seq<char>,
    show: bool,
    st: CtxState,
) -> CtxState
    decreases idxs.len() - t,
{
    if t < 0 || t >= idxs.len() {
        st
    } else {
        let w = window(idxs[t], o.before_context as nat, o.after_context as nat, ctx.len());
        let st1 = if st.printed != Set::<int>::empty() && w.0 > st.hi + 1 {
            CtxState { out: st.out.push("--"@), ..st }
        } else {
            st
        };
        print_context(
            ctx,
            idxs,
            t + 1,
            o,
            name,
            show,
            print_range(ctx, idxs[t], w.0, w.1, name, show, o.flags.line_numbers, st1),
        )
    }
}

pub open spec fn context_fails(len: nat, idxs: Seq<int>, o: OptionsView) -> bool {
    exists|t: int|
        0 <= t < idxs.len() && #[trigger] window_fails(
            idxs[t],
            o.before_context as nat,
            o.after_context as nat,
            len,
        )
}

/// What grep does with one file: the lines it prints, whether a line was
/// selected, and whether it stops there with success (`-q`).
pub struct Outcome {
    pub out: Seq<Seq<char>>,
    pub matched: bool,
    pub quit: bool,
}

pub open spec fn no_context() -> CtxState {
    CtxState { printed: Set::empty(), hi: 0, out: seq![] }
}

/// The outcome for one file; `None` where a context window cannot be taken
/// (grep fails there).
pub open spec fn file_outcome(
    o: OptionsView,
    name: Seq<char>,
    show: bool,
    lines: Seq<Option<Seq<char>>>,
    hits: Seq<bool>,
    finds: Seq<Seq<Seq<char>>>,
) -> Option<Outcome> {
    let st = scan_lines(o, name, show, lines, hits, finds, 0, scan_start());
    let ctx_phase = context_on(o) && !o.flags.count_only && !o.flags.files_with_matches;
    if st.quit {
        Some(Outcome { out: st.out, matched: st.matched, quit: true })
    } else if ctx_phase && context_fails(st.ctx.len(), st.idxs, o) {
        None
    } else {
        let c = if ctx_phase {
            print_context(st.ctx, st.idxs, 0, o, name, show, no_context()).out
        } else {
            seq![]
        };
        let n = if o.flags.count_only {
            if show {
                seq![name + ":"@ + decimal(st.count)]
            } else {
                seq![decimal(st.count)]
            }
        } else {
            seq![]
        };
        let l = if o.flags.files_with_matches && st.matched {
            seq![name]
        } else {
            seq![]
        };
        let big_l = if o.flags.files_without_matches && !st.matched {
            seq![name]
        } else {
            seq![]
        };
        Some(Outcome { out: st.out + c + n + l + big_l, matched: st.matched, quit: false })
    }
}


/// The lines grep prints for one file, whether a line was selected, and
/// whether it stops there with success (`-q`).
pub struct FileReport {
    pub out: Vec<String>,
    pub matched: bool,
    pub quit: bool,
}

impl View for FileReport {
    type V = Outcome;

    open spec fn view(&self) -> Outcome {
        Outcome { out: views(self.out@), matched: self.matched, quit: self.quit }
    }
}

pub open spec fn report_view(r: Option<FileReport>) -> Option<Outcome> {
    match r {
        Some(x) => Some(x@),
        None => None,
    }
}

struct LineScan {
    count: u64,
    matched: bool,
    quit: bool,
    ctx: Vec<Vec<char>>,
    idxs: Vec<usize>,
    out: Vec<String>,
}

impl View for LineScan {
    type V = ScanState;

    closed spec fn view(&self) -> ScanState {
        ScanState {
            count: self.count as nat,
            matched: self.matched,
            quit: self.quit,
            ctx: vviews(self.ctx@),
            idxs: self.idxs@.map_values(|i: usize| i as int),
            out: views(self.out@),
        }
    }
}

fn push_line(out: &mut Vec<String>, l: &[char])
    ensures
        views(final(out)@) == views(old(out)@).push(l@),
{
    out.push(string_of(l));
    assert(views(out@) =~= views(old(out)@).push(l@));
}

fn prefix_exec(name: &[char], show: bool, numbers: bool, k: usize, sep: char) -> (r: Vec<char>)
    requires
        k < usize::MAX,
    ensures
        r@ == line_prefix(name@, show, numbers, k as int, sep),
{
    let mut r: Vec<char> = Vec::new();
    if show {
        push_all(&mut r, name);
        r.push(sep);
    }
    let ghost head = r@;
    if numbers {
        let d = fmt_dec((k + 1) as u64);
        push_all(&mut r, d.as_slice());
        r.push(sep);
        assert(r@ =~= head + decimal((k + 1) as nat).push(sep));
    }
    assert(r@ =~= line_prefix(name@, show, numbers, k as int, sep));
    r
}

/// Reads line `k`: `false` where reading stops there.
fn scan_one(
    o: &GrepOptions,
    name: &[char],
    show: bool,
    lines: &[Option<String>],
    hits: &[bool],
    finds: &[Vec<String>],
    k: usize,
    st: &mut LineScan,
) -> (go_on: bool)
    requires
        k < lines@.len(),
        hits@.len() == lines@.len(),
        finds@.len() == lines@.len(),
        old(st).count <= k,
        !old(st).quit,
    ensures
        go_on ==> !final(st).quit && final(st).count <= k + 1 && scan_lines(
            o@,
            name@,
            show,
            line_views(lines@),
            hits@,
            find_views(finds@),
            k + 1,
            final(st)@,
        ) == scan_lines(
            o@,
            name@,
            show,
            line_views(lines@),
            hits@,
            find_views(finds@),
            k as int,
            old(st)@,
        ),
        !go_on ==> final(st)@ == scan_lines(
            o@,
            name@,
            show,
            line_views(lines@),
            hits@,
            find_views(finds@),
            k as int,
            old(st)@,
        ),
{
    let ghost lv = line_views(lines@);
    let ghost fv = find_views(finds@);
    let n = lines.len();
    match &lines[k] {
        None => {
            assert(lv[k as int] is None);
            true
        },
        Some(line) => {
            assert(lv[k as int] == Some(line@));
            let lc = chars_of(line.as_str());
            let sel = hits[k] != o.flags.invert;
            let ctx_on = o.before_context > 0 || o.after_context > 0;
            if ctx_on {
                let ghost c0 = st.ctx@;
                let ghost i0 = st.idxs@;
                st.ctx.push(copy_chars(lc.as_slice()));
                assert(vviews(st.ctx@) =~= vviews(c0).push(lc@));
                if sel {
                    st.idxs.push(k);
                    assert(st.idxs@.map_values(|i: usize| i as int) =~= i0.map_values(
                        |i: usize| i as int,
                    ).push(k as int));
                }
            }
            let ghost st1 = if context_on(o@) {
                ScanState {
                    ctx: old(st)@.ctx.push(line@),
                    idxs: if sel {
                        old(st)@.idxs.push(k as int)
                    } else {
                        old(st)@.idxs
                    },
                    ..old(st)@
                }
            } else {
                old(st)@
            };
            assert(st@ == st1);
            if !sel {
                return true;
            }
            match o.max_count {
                Some(mx) => {
                    if st.count >= mx as u64 {
                        return false;
                    }
                },
                None => {},
            }
            st.count = st.count + 1;
            st.matched = true;
            if o.flags.quiet {
                st.quit = true;
                return false;
            }
            let ghost st2 = ScanState { count: st1.count + 1, matched: true, ..st1 };
            assert(st@ == st2);
            if !o.flags.files_with_matches && !o.flags.files_without_matches
                && !o.flags.count_only && !ctx_on {
                let pre = prefix_exec(name, show, o.flags.line_numbers, k, ':');
                let ghost out0 = views(st.out@);
                if o.flags.only_matching && !o.flags.invert {
                    let fs = &finds[k];
                    let ghost fk = fv[k as int];
                    assert(fk == views(fs@));
                    let ghost f = |m: Seq<char>| pre@ + m;
                    let ghost count0 = st.count;
                    let ghost ctx0 = st.ctx@;
                    let ghost idxs0 = st.idxs@;
                    let mut t: usize = 0;
                    while t < fs.len()
                        invariant
                            st.count == count0,
                            st.ctx@ == ctx0,
                            st.idxs@ == idxs0,
                            st.matched,
                            !st.quit,
                            t <= fs@.len(),
                            fk == views(fs@),
                            f == (|m: Seq<char>| pre@ + m),
                            views(st.out@) == out0 + fk.take(t as int).map_values(f),
                        decreases fs@.len() - t,
                    {
                        let mut l = copy_chars(pre.as_slice());
                        let mc = chars_of(fs[t].as_str());
                        push_all(&mut l, mc.as_slice());
                        assert(fk[t as int] == fs@[t as int]@);
                        push_line(&mut st.out, l.as_slice());
                        assert(fk.take(t + 1).map_values(f) =~= fk.take(t as int).map_values(
                            f,
                        ).push(f(fk[t as int])));
                        t = t + 1;
                    }
                    assert(fk.take(fs@.len() as int) =~= fk);
                    assert(views(st.out@) =~= out0 + hit_lines(
                        o@,
                        name@,
                        show,
                        k as int,
                        line@,
                        fk,
                    ));
                } else {
                    let l = concat(pre.as_slice(), lc.as_slice());
                    push_line(&mut st.out, l.as_slice());
                    assert(views(st.out@) =~= out0 + seq![pre@ + lc@]);
                }
                assert(views(st.out@) == st2.out + hit_lines(
                    o@,
                    name@,
                    show,
                    k as int,
                    line@,
                    fv[k as int],
                ));
                assert(st.count == st2.count);
                assert(vviews(st.ctx@) == st2.ctx);
                assert(st@ == ScanState {
                    out: st2.out + hit_lines(o@, name@, show, k as int, line@, fv[k as int]),
                    ..st2
                });
            }
            assert(scan_lines(o@, name@, show, lv, hits@, fv, k + 1, st@) == scan_lines(
                o@,
                name@,
                show,
                lv,
                hits@,
                fv,
                k as int,
                old(st)@,
            ));
            true
        },
    }
}


/// The positions marked in `pv`.
pub open spec fn marked(pv: Seq<bool>) -> Set<int> {
    Set::new(|j: int| 0 <= j < pv.len() && pv[j])
}

struct ContextRun {
    printed: Vec<bool>,
    hi: usize,
    any: bool,
    out: Vec<String>,
}

impl ContextRun {
    closed spec fn state(&self) -> CtxState {
        CtxState { printed: marked(self.printed@), hi: self.hi as int, out: views(self.out@) }
    }

    closed spec fn wf(&self, len: nat) -> bool {
        &&& self.printed@.len() == len
        &&& self.any == (marked(self.printed@) != Set::<int>::empty())
        &&& (self.hi == 0 || self.hi < len)
    }
}

fn window_exec(idx: usize, before: usize, after: usize, len: usize) -> (r: Option<(usize, usize)>)
    ensures
        match r {
            Some(w) => !window_fails(idx as int, before as nat, after as nat, len as nat) && (
            w.0 as int, w.1 as int) == window(idx as int, before as nat, after as nat, len as nat),
            None => window_fails(idx as int, before as nat, after as nat, len as nat),
        },
{
    let start = if idx >= before {
        idx - before
    } else {
        0
    };
    if after >= usize::MAX - idx {
        return None;
    }
    let e = idx + after + 1;
    let end = if e < len {
        e
    } else {
        len
    };
    if start > end {
        return None;
    }
    Some((start, end))
}

fn print_range_exec(
    ctx: &Vec<Vec<char>>,
    idx: usize,
    start: usize,
    end: usize,
    name: &[char],
    show: bool,
    numbers: bool,
    run: &mut ContextRun,
)
    requires
        start <= end <= ctx@.len(),
        old(run).wf(ctx@.len()),
    ensures
        final(run).wf(ctx@.len()),
        final(run).state() == print_range(
            vviews(ctx@),
            idx as int,
            start as int,
            end as int,
            name@,
            show,
            numbers,
            old(run).state(),
        ),
{
    let ghost cv = vviews(ctx@);
    let mut j: usize = start;
    while j < end
        invariant
            start <= j <= end <= ctx@.len(),
            cv == vviews(ctx@),
            run.wf(ctx@.len()),
            print_range(cv, idx as int, j as int, end as int, name@, show, numbers, run.state())
                == print_range(
                cv,
                idx as int,
                start as int,
                end as int,
                name@,
                show,
                numbers,
                old(run).state(),
            ),
        decreases end - j,
    {
        assert(run.state().printed.contains(j as int) == run.printed@[j as int]);
        if !run.printed[j] {
            let sep = if j == idx {
                ':'
            } else {
                '-'
            };
            let ghost s0 = run.state();
            let pre = prefix_exec(name, show, numbers, j, sep);
            let l = concat(pre.as_slice(), ctx[j].as_slice());
            assert(cv[j as int] == ctx@[j as int]@);
            run.printed.set(j, true);
            assert(marked(run.printed@) =~= s0.printed.insert(j as int));
            assert(marked(run.printed@).contains(j as int));
            run.any = true;
            if j > run.hi {
                run.hi = j;
            }
            push_line(&mut run.out, l.as_slice());
        }
        j = j + 1;
    }
}

/// The context output of a file, or `None` where a window cannot be taken.
fn context_lines(
    ctx: &Vec<Vec<char>>,
    idxs: &Vec<usize>,
    o: &GrepOptions,
    name: &[char],
    show: bool,
) -> (r: Option<Vec<String>>)
    ensures
        match r {
            Some(out) => !context_fails(
                ctx@.len(),
                idxs@.map_values(|i: usize| i as int),
                o@,
            ) && views(out@) == print_context(
                vviews(ctx@),
                idxs@.map_values(|i: usize| i as int),
                0,
                o@,
                name@,
                show,
                no_context(),
            ).out,
            None => context_fails(ctx@.len(), idxs@.map_values(|i: usize| i as int), o@),
        },
{
    let ghost iv = idxs@.map_values(|i: usize| i as int);
    let ghost cv = vviews(ctx@);
    let len = ctx.len();
    let mut t: usize = 0;
    while t < idxs.len()
        invariant
            t <= idxs@.len(),
            len == ctx@.len(),
            iv == idxs@.map_values(|i: usize| i as int),
            forall|u: int|
                0 <= u < t ==> !#[trigger] window_fails(
                    iv[u],
                    o@.before_context as nat,
                    o@.after_context as nat,
                    len as nat,
                ),
        decreases idxs@.len() - t,
    {
        if window_exec(idxs[t], o.before_context, o.after_context, len).is_none() {
            assert(window_fails(
                iv[t as int],
                o@.before_context as nat,
                o@.after_context as nat,
                len as nat,
            ));
            return None;
        }
        t = t + 1;
    }
    let mut printed: Vec<bool> = Vec::new();
    let mut k: usize = 0;
    while k < len
        invariant
            k <= len,
            printed@.len() == k,
            forall|i: int| 0 <= i < k ==> !#[trigger] printed@[i],
        decreases len - k,
    {
        printed.push(false);
        k = k + 1;
    }
    let mut run = ContextRun { printed, hi: 0, any: false, out: Vec::new() };
    assert(marked(run.printed@) =~= Set::<int>::empty());
    assert(views(run.out@) =~= Seq::<Seq<char>>::empty());
    assert(run.state() == no_context());
    let mut t: usize = 0;
    while t < idxs.len()
        invariant
            t <= idxs@.len(),
            len == ctx@.len(),
            iv == idxs@.map_values(|i: usize| i as int),
            cv == vviews(ctx@),
            run.wf(len as nat),
            forall|u: int|
                0 <= u < idxs@.len() ==> !#[trigger] window_fails(
                    iv[u],
                    o@.before_context as nat,
                    o@.after_context as nat,
                    len as nat,
                ),
            print_context(cv, iv, t as int, o@, name@, show, run.state()) == print_context(
                cv,
                iv,
                0,
                o@,
                name@,
                show,
                no_context(),
            ),
        decreases idxs@.len() - t,
    {
        let idx = idxs[t];
        assert(iv[t as int] == idx as int);
        let w = window_exec(idx, o.before_context, o.after_context, len);
        assert(!window_fails(iv[t as int], o@.before_context as nat, o@.after_context as nat, len as nat));
        let (start, end) = w.unwrap();
        if run.any && start > run.hi + 1 {
            push_line(&mut run.out, chars_of("--").as_slice());
        }
        print_range_exec(ctx, idx, start, end, name, show, o.flags.line_numbers, &mut run);
        t = t + 1;
    }
    assert(!context_fails(len as nat, iv, o@));
    Some(run.out)
}


/// What grep prints for one file named `name` (shown before each line
/// when `show`), given for each line whether the expression matches it
/// (`hits`) and its matches (`finds`, used under `-o`); `None` where a
/// context window cannot be taken.
pub fn report_lines(
    o: &GrepOptions,
    name: &str,
    show: bool,
    lines: &[Option<String>],
    hits: &[bool],
    finds: &[Vec<String>],
) -> (r: Option<FileReport>)
    requires
        hits@.len() == lines@.len(),
        finds@.len() == lines@.len(),
    ensures
        report_view(r) == file_outcome(
            o@,
            name@,
            show,
            line_views(lines@),
            hits@,
            find_views(finds@),
        ),
{
    let ghost lv = line_views(lines@);
    let ghost fv = find_views(finds@);
    let nm = chars_of(name);
    let mut st = LineScan {
        count: 0,
        matched: false,
        quit: false,
        ctx: Vec::new(),
        idxs: Vec::new(),
        out: Vec::new(),
    };
    assert(vviews(st.ctx@) =~= Seq::<Seq<char>>::empty());
    assert(st.idxs@.map_values(|i: usize| i as int) =~= Seq::<int>::empty());
    assert(views(st.out@) =~= Seq::<Seq<char>>::empty());
    assert(st@ == scan_start());
    let ghost full = scan_lines(o@, name@, show, lv, hits@, fv, 0, scan_start());
    let mut k: usize = 0;
    let mut stopped = false;
    while !stopped && k < lines.len()
        invariant
            k <= lines@.len(),
            hits@.len() == lines@.len(),
            finds@.len() == lines@.len(),
            nm@ == name@,
            lv == line_views(lines@),
            fv == find_views(finds@),
            full == scan_lines(o@, name@, show, lv, hits@, fv, 0, scan_start()),
            stopped ==> st@ == full,
            !stopped ==> !st.quit && st.count <= k && scan_lines(
                o@,
                name@,
                show,
                lv,
                hits@,
                fv,
                k as int,
                st@,
            ) == full,
        decreases lines@.len() - k, if stopped {
            0int
        } else {
            1int
        },
    {
        if scan_one(o, nm.as_slice(), show, lines, hits, finds, k, &mut st) {
            k = k + 1;
        } else {
            stopped = true;
        }
    }
    assert(st@ == full);
    if st.quit {
        return Some(FileReport { out: st.out, matched: st.matched, quit: true });
    }
    let ctx_phase = (o.before_context > 0 || o.after_context > 0) && !o.flags.count_only
        && !o.flags.files_with_matches;
    let mut out = st.out;
    let ghost out0 = views(out@);
    if ctx_phase {
        match context_lines(&st.ctx, &st.idxs, o, nm.as_slice(), show) {
            None => {
                return None;
            },
            Some(c) => {
                let mut i: usize = 0;
                while i < c.len()
                    invariant
                        i <= c@.len(),
                        views(out@) == out0 + views(c@).take(i as int),
                    decreases c@.len() - i,
                {
                    let ghost before = views(out@);
                    out.push(c[i].clone());
                    assert(views(out@) =~= before.push(c@[i as int]@));
                    assert(views(c@).take(i + 1) =~= views(c@).take(i as int).push(c@[i as int]@));
                    i = i + 1;
                }
                assert(views(c@).take(c@.len() as int) =~= views(c@));
            },
        }
    }
    let ghost cpart = if ctx_phase {
        print_context(st@.ctx, st@.idxs, 0, o@, name@, show, no_context()).out
    } else {
        seq![]
    };
    let ghost npart = if o@.flags.count_only {
        if show {
            seq![name@ + ":"@ + decimal(st@.count)]
        } else {
            seq![decimal(st@.count)]
        }
    } else {
        seq![]
    };
    let ghost lpart = if o@.flags.files_with_matches && st@.matched {
        seq![name@]
    } else {
        seq![]
    };
    let ghost bpart = if o@.flags.files_without_matches && !st@.matched {
        seq![name@]
    } else {
        seq![]
    };
    let ghost out1 = views(out@);
    assert(out1 =~= out0 + cpart);
    if o.flags.count_only {
        let d = fmt_dec(st.count);
        if show {
            let mut l = copy_chars(nm.as_slice());
            l.push(':');
            push_all(&mut l, d.as_slice());
            assert(l@ =~= name@ + ":"@ + decimal(st.count as nat)) by {
                reveal_strlit(":");
            }
            push_line(&mut out, l.as_slice());
        } else {
            push_line(&mut out, d.as_slice());
        }
    }
    let ghost out2 = views(out@);
    assert(out2 =~= out1 + npart);
    if o.flags.files_with_matches && st.matched {
        push_line(&mut out, nm.as_slice());
    }
    let ghost out3 = views(out@);
    assert(out3 =~= out2 + lpart);
    if o.flags.files_without_matches && !st.matched {
        push_line(&mut out, nm.as_slice());
    }
    assert(views(out@) =~= out3 + bpart);
    assert(views(out@) =~= out0 + cpart + npart + lpart + bpart);
    let r = FileReport { out, matched: st.matched, quit: false };
    Some(r)
}

/// The lines of a file that the expression of `m` matches.
pub open spec fn line_hits(p: Seq<char>, ls: Seq<Option<String>>) -> Seq<bool> {
    Seq::new(
        ls.len(),
        |k: int|
            match ls[k] {
                Some(l) => regex_is_match(p, l@),
                None => false,
            },
    )
}

/// The matches in each line, looked for only under `-o` (without `-v`) and
/// where the line matches.
pub open spec fn line_finds(p: Seq<char>, o: OptionsView, ls: Seq<Option<String>>) -> Seq<
    Seq<Seq<char>>,
> {
    Seq::new(
        ls.len(),
        |k: int|
            match ls[k] {
                Some(l) => if o.flags.only_matching && !o.flags.invert && regex_is_match(p, l@) {
                    regex_find_all(p, l@)
                } else {
                    seq![]
                },
                None => seq![],
            },
    )
}

/// What grep prints for the lines of one file, searched with the
/// expression of `m` (see `report_lines`).
pub fn grep_file(
    m: &Matcher,
    o: &GrepOptions,
    name: &str,
    show: bool,
    lines: &[Option<String>],
) -> (r: Option<FileReport>)
    ensures
        report_view(r) == file_outcome(
            o@,
            name@,
            show,
            line_views(lines@),
            line_hits(m.pattern(), lines@),
            line_finds(m.pattern(), o@, lines@),
        ),
{
    let ghost p = m.pattern();
    let mut hits: Vec<bool> = Vec::new();
    let mut finds: Vec<Vec<String>> = Vec::new();
    let mut k: usize = 0;
    while k < lines.len()
        invariant
            k <= lines@.len(),
            p == m.pattern(),
            hits@.len() == k,
            finds@.len() == k,
            forall|i: int| 0 <= i < k ==> #[trigger] hits@[i] == line_hits(p, lines@)[i],
            forall|i: int|
                0 <= i < k ==> #[trigger] find_views(finds@)[i] == line_finds(p, o@, lines@)[i],
        decreases lines@.len() - k,
    {
        let ghost f0 = finds@;
        match &lines[k] {
            Some(l) => {
                let h = is_match(m, l.as_str());
                hits.push(h);
                if o.flags.only_matching && !o.flags.invert && h {
                    finds.push(find_all(m, l.as_str()));
                } else {
                    let none: Vec<String> = Vec::new();
                    assert(views(none@) =~= Seq::<Seq<char>>::empty());
                    finds.push(none);
                }
            },
            None => {
                hits.push(false);
                let none: Vec<String> = Vec::new();
                assert(views(none@) =~= Seq::<Seq<char>>::empty());
                finds.push(none);
            },
        }
        assert forall|i: int| 0 <= i < k + 1 implies #[trigger] find_views(finds@)[i]
            == line_finds(p, o@, lines@)[i] by {
            if i < k {
                assert(finds@[i] == f0[i]);
                assert(find_views(f0)[i] == line_finds(p, o@, lines@)[i]);
            }
        }
        k = k + 1;
    }
    assert(hits@ =~= line_hits(p, lines@));
    assert(find_views(finds@) =~= line_finds(p, o@, lines@));
    report_lines(o, name, show, lines, hits.as_slice(), finds.as_slice())
}

/// The files searched: those named, else `.` under `-r`, else `-`
/// (standard input).
pub fn target_files(o: &GrepOptions) -> (r: Vec<String>)
    ensures
        views(r@) == (if o@.files.len() == 0 {
            if o@.flags.recursive {
                seq!["."@]
            } else {
                seq!["-"@]
            }
        } else {
            o@.files
        }),
{
    if o.files.len() == 0 {
        let mut r: Vec<String> = Vec::new();
        if o.flags.recursive {
            r.push(to_string("."));
        } else {
            r.push(to_string("-"));
        }
        assert(views(r@) =~= seq![r@[0]@]);
        r
    } else {
        let r = o.files.clone();
        assert(views(r@) =~= views(o.files@));
        r
    }
}

/// File names are shown: as `-H`/`-h` last said, else when more than one
/// file is searched.
pub fn show_filename(force: Option<bool>, n_files: usize) -> (r: bool)
    ensures
        r == match force {
            Some(b) => b,
            None => n_files > 1,
        },
{
    match force {
        Some(b) => b,
        None => n_files > 1,
    }
}


/// The options with `-x`, `-w` and `-i` taken away.
pub open spec fn unframed(o: OptionsView) -> OptionsView {
    OptionsView { flags: GrepFlags { whole_line: false, whole_word: false, ignore_case: false, ..o.flags }, ..o }
}

/// Under `-x` a line must match as a whole: the expression is the one made
/// without `-x`, `-w` and `-i`, as a group anchored at the start (`^`) and
/// at the end (`$`) of the line, with `(?i)` before it under `-i`; so it
/// ends in `)$`.
pub proof fn lemma_whole_line_anchored(o: OptionsView)
    requires
        o.flags.whole_line,
    ensures
        pattern_text(o) == (if o.flags.ignore_case {
            "(?i)"@
        } else {
            Seq::<char>::empty()
        }) + "^(?:"@ + pattern_text(unframed(o)) + ")$"@,
        ends_with(pattern_text(o), ")$"@),
{
    reveal_strlit(")$");
    let t = pattern_text(o);
    let pre = if o.flags.ignore_case {
        "(?i)"@
    } else {
        Seq::<char>::empty()
    };
    assert(pattern_pieces(unframed(o)) == pattern_pieces(o));
    if !o.flags.ignore_case {
        assert(t =~= pre + "^(?:"@ + pattern_text(unframed(o)) + ")$"@);
    } else {
        assert(t =~= pre + ("^(?:"@ + pattern_text(unframed(o)) + ")$"@));
        assert(t =~= pre + "^(?:"@ + pattern_text(unframed(o)) + ")$"@);
    }
    assert(t.skip(t.len() - 2) =~= ")$"@);
}

/// Under `-w` without `-x` a match must stand between word boundaries:
/// the expression is the one made without `-w` and `-i`, as a group
/// between `\b`s, with `(?i)` before it under `-i`.
pub proof fn lemma_whole_word_bounded(o: OptionsView)
    requires
        o.flags.whole_word,
        !o.flags.whole_line,
    ensures
        pattern_text(o) == (if o.flags.ignore_case {
            "(?i)"@
        } else {
            Seq::<char>::empty()
        }) + "\\b(?:"@ + pattern_text(unframed(o)) + ")\\b"@,
{
    assert(pattern_pieces(unframed(o)) == pattern_pieces(o));
    let t = pattern_text(o);
    if o.flags.ignore_case {
        assert(t =~= "(?i)"@ + "\\b(?:"@ + pattern_text(unframed(o)) + ")\\b"@);
    } else {
        assert(t =~= Seq::<char>::empty() + "\\b(?:"@ + pattern_text(unframed(o)) + ")\\b"@);
    }
}

} // verus!
