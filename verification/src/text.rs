//! Text handling shared by the applets: the character model of strings,
//! splitting into lines, fields and words, trimming, and the conversions
//! between text and numbers.
use vstd::prelude::*;

verus! {

// ---------------------------------------------------------------------------
// Conversions between `str`/`String` and character vectors
// ---------------------------------------------------------------------------

/// The characters of `s`, in order.
pub fn chars_of(s: &str) -> (v: Vec<char>)
    ensures
        v@ == s@,
{
    let mut v: Vec<char> = Vec::new();
    for c in it: s.chars()
        invariant
            it.seq() == s@,
            v@ == it.seq().take(it.index@ as int),
    {
        v.push(c);
    }
    v
}

/// The string made of the characters of `v`, in order.
///
/// Trusted: calls std's `FromIterator<&char> for String` (`collect`), which
/// appends each character in turn.
#[verifier::external_body]
pub fn string_of(v: &[char]) -> (s: String)
    ensures
        s@ == v@,
{
    v.iter().collect()
}

/// Owned copy of a string slice.
pub fn to_string(s: &str) -> (r: String)
    ensures
        r@ == s@,
{
    s.to_owned()
}

/// The characters of each string, in order.
pub fn chars_of_all(args: &[String]) -> (v: Vec<Vec<char>>)
    ensures
        v@.len() == args@.len(),
        forall|i: int| 0 <= i < args@.len() ==> #[trigger] v@[i]@ == args@[i]@,
{
    let mut v: Vec<Vec<char>> = Vec::new();
    let mut i: usize = 0;
    while i < args.len()
        invariant
            i <= args@.len(),
            v@.len() == i,
            forall|k: int| 0 <= k < i ==> #[trigger] v@[k]@ == args@[k]@,
        decreases args@.len() - i,
    {
        v.push(chars_of(args[i].as_str()));
        i = i + 1;
    }
    v
}

/// Strings made of each character vector.
pub fn strings_of(v: &Vec<Vec<char>>) -> (r: Vec<String>)
    ensures
        r@.len() == v@.len(),
        forall|i: int| 0 <= i < v@.len() ==> #[trigger] r@[i]@ == v@[i]@,
{
    let mut r: Vec<String> = Vec::new();
    let mut i: usize = 0;
    while i < v.len()
        invariant
            i <= v@.len(),
            r@.len() == i,
            forall|k: int| 0 <= k < i ==> #[trigger] r@[k]@ == v@[k]@,
        decreases v@.len() - i,
    {
        r.push(string_of(v[i].as_slice()));
        i = i + 1;
    }
    r
}

/// The views of a sequence of strings.
pub open spec fn views(v: Seq<String>) -> Seq<Seq<char>> {
    v.map_values(|s: String| s@)
}

/// The views of a sequence of character vectors.
pub open spec fn vviews(v: Seq<Vec<char>>) -> Seq<Seq<char>> {
    v.map_values(|s: Vec<char>| s@)
}

/// Rust's `Iterator::skip(n)` on a sequence: without its first `n` items.
pub open spec fn skip_n<A>(s: Seq<A>, n: int) -> Seq<A> {
    if s.len() <= n {
        Seq::empty()
    } else {
        s.skip(n)
    }
}

/// `a` and `lit` hold the same characters.
pub fn eq_lit(a: &[char], lit: &str) -> (r: bool)
    ensures
        r == (a@ == lit@),
{
    let b = chars_of(lit);
    eq_chars(a, b.as_slice())
}

/// `a` and `b` hold the same characters.
pub fn eq_chars(a: &[char], b: &[char]) -> (r: bool)
    ensures
        r == (a@ == b@),
{
    if a.len() != b.len() {
        return false;
    }
    let mut i: usize = 0;
    while i < a.len()
        invariant
            a@.len() == b@.len(),
            i <= a@.len(),
            forall|k: int| 0 <= k < i ==> a@[k] == b@[k],
        decreases a@.len() - i,
    {
        if a[i] != b[i] {
            return false;
        }
        i = i + 1;
    }
    assert(a@ =~= b@);
    true
}

/// Copy of a character vector.
pub fn copy_chars(a: &[char]) -> (r: Vec<char>)
    ensures
        r@ == a@,
{
    let mut r: Vec<char> = Vec::new();
    let mut i: usize = 0;
    while i < a.len()
        invariant
            i <= a@.len(),
            r@ == a@.take(i as int),
        decreases a@.len() - i,
    {
        r.push(a[i]);
        i = i + 1;
        assert(r@ =~= a@.take(i as int));
    }
    assert(a@.take(a@.len() as int) =~= a@);
    r
}

/// The characters `a[from..to]`.
pub fn slice_chars(a: &[char], from: usize, to: usize) -> (r: Vec<char>)
    requires
        from <= to <= a@.len(),
    ensures
        r@ == a@.subrange(from as int, to as int),
{
    let mut r: Vec<char> = Vec::new();
    let mut i: usize = from;
    while i < to
        invariant
            from <= i <= to <= a@.len(),
            r@ == a@.subrange(from as int, i as int),
        decreases to - i,
    {
        r.push(a[i]);
        i = i + 1;
        assert(r@ =~= a@.subrange(from as int, i as int));
    }
    r
}

/// Appends the characters of `b` to `a`.
pub fn push_all(a: &mut Vec<char>, b: &[char])
    ensures
        final(a)@ == old(a)@ + b@,
{
    let ghost a0 = a@;
    let mut i: usize = 0;
    while i < b.len()
        invariant
            i <= b@.len(),
            a@ == a0 + b@.take(i as int),
        decreases b@.len() - i,
    {
        a.push(b[i]);
        i = i + 1;
        assert(a@ =~= a0 + b@.take(i as int));
    }
    assert(b@.take(b@.len() as int) =~= b@);
}

/// Appends the characters of `lit` to `a`.
pub fn push_str(a: &mut Vec<char>, lit: &str)
    ensures
        final(a)@ == old(a)@ + lit@,
{
    let b = chars_of(lit);
    push_all(a, b.as_slice());
}

/// `a` followed by `b`.
pub fn concat(a: &[char], b: &[char]) -> (r: Vec<char>)
    ensures
        r@ == a@ + b@,
{
    let mut r = copy_chars(a);
    push_all(&mut r, b);
    r
}

// ---------------------------------------------------------------------------
// Prefixes, suffixes and searching
// ---------------------------------------------------------------------------

pub open spec fn starts_with(s: Seq<char>, p: Seq<char>) -> bool {
    p.len() <= s.len() && s.take(p.len() as int) == p
}

pub open spec fn ends_with(s: Seq<char>, p: Seq<char>) -> bool {
    p.len() <= s.len() && s.skip(s.len() - p.len()) == p
}

/// Does `s` begin with the characters of `p`?
pub fn starts_with_lit(s: &[char], p: &str) -> (r: bool)
    ensures
        r == starts_with(s@, p@),
{
    let pc = chars_of(p);
    starts_with_chars(s, pc.as_slice())
}

/// Does `s` begin with the characters of `p`?
pub fn starts_with_chars(s: &[char], p: &[char]) -> (r: bool)
    ensures
        r == starts_with(s@, p@),
{
    if p.len() > s.len() {
        return false;
    }
    let mut i: usize = 0;
    while i < p.len()
        invariant
            p@.len() <= s@.len(),
            i <= p@.len(),
            forall|k: int| 0 <= k < i ==> s@[k] == p@[k],
        decreases p@.len() - i,
    {
        if s[i] != p[i] {
            assert(s@.take(p@.len() as int)[i as int] != p@[i as int]);
            return false;
        }
        i = i + 1;
    }
    assert(s@.take(p@.len() as int) =~= p@);
    true
}

/// Does `s` end with the characters of `p`?
pub fn ends_with_lit(s: &[char], p: &str) -> (r: bool)
    ensures
        r == ends_with(s@, p@),
{
    let pc = chars_of(p);
    if pc.len() > s.len() {
        return false;
    }
    let off = s.len() - pc.len();
    let mut i: usize = 0;
    while i < pc.len()
        invariant
            pc@ == p@,
            off + pc@.len() == s.len(),
            i <= pc@.len(),
            forall|k: int| 0 <= k < i ==> s@[off + k] == pc@[k],
        decreases pc@.len() - i,
    {
        assert(off + i < s@.len());
        if s[off + i] != pc[i] {
            assert(s@.skip(off as int)[i as int] != pc@[i as int]);
            return false;
        }
        i = i + 1;
    }
    assert(s@.skip(off as int) =~= pc@);
    true
}

/// Rust's `str::trim_start_matches(p)` for a text pattern: `s` with every
/// leading repetition of `p` removed.
pub open spec fn trim_prefix_all(s: Seq<char>, p: Seq<char>) -> Seq<char>
    decreases s.len(),
{
    if p.len() > 0 && starts_with(s, p) {
        trim_prefix_all(s.skip(p.len() as int), p)
    } else {
        s
    }
}

/// `trim_prefix_all(s, p)`.
pub fn trim_prefix_all_exec(s: &[char], p: &str) -> (r: Vec<char>)
    ensures
        r@ == trim_prefix_all(s@, p@),
{
    let pc = chars_of(p);
    let mut i: usize = 0;
    assert(s@.skip(0) =~= s@);
    if pc.len() == 0 {
        return copy_chars(s);
    }
    loop
        invariant
            i <= s@.len(),
            pc@ == p@,
            pc@.len() > 0,
            trim_prefix_all(s@.skip(i as int), p@) == trim_prefix_all(s@, p@),
        decreases s@.len() - i,
    {
        let rest = slice_chars(s, i, s.len());
        assert(rest@ =~= s@.skip(i as int));
        if !starts_with_chars(rest.as_slice(), pc.as_slice()) {
            return rest;
        }
        assert(s@.skip(i as int).skip(pc@.len() as int) =~= s@.skip(i + pc@.len()));
        i = i + pc.len();
    }
}

/// Index of the first occurrence of `c` in `s`.
pub open spec fn find_char(s: Seq<char>, c: char) -> Option<int>
    decreases s.len(),
{
    if s.len() == 0 {
        None
    } else if s[0] == c {
        Some(0)
    } else {
        match find_char(s.drop_first(), c) {
            Some(i) => Some(i + 1),
            None => None,
        }
    }
}

pub proof fn lemma_find_char(s: Seq<char>, c: char)
    ensures
        match find_char(s, c) {
            Some(i) => 0 <= i < s.len() && s[i] == c && forall|j: int| 0 <= j < i ==> s[j] != c,
            None => forall|j: int| 0 <= j < s.len() ==> s[j] != c,
        },
    decreases s.len(),
{
    if s.len() > 0 && s[0] != c {
        lemma_find_char(s.drop_first(), c);
        match find_char(s.drop_first(), c) {
            Some(i) => {
                assert forall|j: int| 0 <= j < i + 1 implies s[j] != c by {
                    if j > 0 {
                        assert(s[j] == s.drop_first()[j - 1]);
                    }
                }
            },
            None => {
                assert forall|j: int| 0 <= j < s.len() implies s[j] != c by {
                    if j > 0 {
                        assert(s[j] == s.drop_first()[j - 1]);
                    }
                }
            },
        }
    }
}

/// The characterisation of `find_char` determines it.
pub proof fn lemma_find_char_unique(s: Seq<char>, c: char, r: Option<int>)
    requires
        match r {
            Some(i) => 0 <= i < s.len() && s[i] == c && forall|j: int| 0 <= j < i ==> s[j] != c,
            None => forall|j: int| 0 <= j < s.len() ==> s[j] != c,
        },
    ensures
        find_char(s, c) == r,
{
    lemma_find_char(s, c);
    match (find_char(s, c), r) {
        (Some(a), Some(b)) => {
            if a < b {
                assert(s[a] != c);
            } else if b < a {
                assert(s[b] != c);
            }
        },
        (Some(a), None) => {
            assert(s[a] != c);
        },
        (None, Some(b)) => {
            assert(s[b] != c);
        },
        (None, None) => {},
    }
}

/// Index of the first occurrence of `c` in `s` at or after `from`.
pub fn find_char_from(s: &[char], c: char, from: usize) -> (r: Option<usize>)
    requires
        from <= s@.len(),
    ensures
        match r {
            Some(i) => match find_char(s@.skip(from as int), c) {
                Some(k) => i == from + k,
                None => false,
            },
            None => find_char(s@.skip(from as int), c) is None,
        },
        r matches Some(i) ==> from <= i < s@.len() && s@[i as int] == c,
{
    let ghost t = s@.skip(from as int);
    let mut i: usize = from;
    while i < s.len()
        invariant
            from <= i <= s@.len(),
            t == s@.skip(from as int),
            forall|j: int| from <= j < i ==> s@[j] != c,
        decreases s@.len() - i,
    {
        if s[i] == c {
            proof {
                assert(t[i - from] == c);
                assert forall|j: int| 0 <= j < i - from implies t[j] != c by {
                    assert(t[j] == s@[from + j]);
                }
                lemma_find_char_unique(t, c, Some((i - from) as int));
            }
            return Some(i);
        }
        i = i + 1;
    }
    proof {
        assert forall|j: int| 0 <= j < t.len() implies t[j] != c by {
            assert(t[j] == s@[from + j]);
        }
        lemma_find_char_unique(t, c, None);
    }
    None
}

/// Index of the first occurrence of `c` in `s`.
pub fn find_char_exec(s: &[char], c: char) -> (r: Option<usize>)
    ensures
        match r {
            Some(i) => find_char(s@, c) == Some(i as int),
            None => find_char(s@, c) is None,
        },
        r matches Some(i) ==> i < s@.len() && s@[i as int] == c,
{
    assert(s@.skip(0) =~= s@);
    find_char_from(s, c, 0)
}

/// Does `c` occur in `s`?
pub fn contains_char(s: &[char], c: char) -> (r: bool)
    ensures
        r == s@.contains(c),
{
    let f = find_char_exec(s, c);
    proof {
        lemma_find_char(s@, c);
    }
    match f {
        Some(_) => true,
        None => false,
    }
}

// ---------------------------------------------------------------------------
// Whitespace, trimming
// ---------------------------------------------------------------------------

/// Rust's `char::is_whitespace`: the Unicode `White_Space` property.
pub open spec fn is_space(c: char) -> bool {
    let n = c as u32;
    ||| (9 <= n && n <= 13)
    ||| n == 32
    ||| n == 0x85
    ||| n == 0xA0
    ||| n == 0x1680
    ||| (0x2000 <= n && n <= 0x200A)
    ||| n == 0x2028
    ||| n == 0x2029
    ||| n == 0x202F
    ||| n == 0x205F
    ||| n == 0x3000
}

pub fn is_space_exec(c: char) -> (r: bool)
    ensures
        r == is_space(c),
{
    let n = c as u32;
    (9 <= n && n <= 13) || n == 32 || n == 0x85 || n == 0xA0 || n == 0x1680 || (0x2000 <= n && n
        <= 0x200A) || n == 0x2028 || n == 0x2029 || n == 0x202F || n == 0x205F || n == 0x3000
}

/// `s` without its leading whitespace.
pub open spec fn trim_start(s: Seq<char>) -> Seq<char>
    decreases s.len(),
{
    if s.len() > 0 && is_space(s[0]) {
        trim_start(s.drop_first())
    } else {
        s
    }
}

/// `s` without its trailing whitespace.
pub open spec fn trim_end(s: Seq<char>) -> Seq<char>
    decreases s.len(),
{
    if s.len() > 0 && is_space(s.last()) {
        trim_end(s.drop_last())
    } else {
        s
    }
}

/// Rust's `str::trim`: without leading and trailing whitespace.
pub open spec fn trim(s: Seq<char>) -> Seq<char> {
    trim_end(trim_start(s))
}

proof fn lemma_trim_start_skip(s: Seq<char>, i: int)
    requires
        0 <= i <= s.len(),
        forall|j: int| 0 <= j < i ==> is_space(s[j]),
    ensures
        trim_start(s) == trim_start(s.skip(i)),
    decreases i,
{
    if i > 0 {
        assert(is_space(s[0]));
        assert(s.drop_first().skip(i - 1) =~= s.skip(i));
        assert forall|j: int| 0 <= j < i - 1 implies is_space(s.drop_first()[j]) by {
            assert(s.drop_first()[j] == s[j + 1]);
        }
        lemma_trim_start_skip(s.drop_first(), i - 1);
    } else {
        assert(s.skip(0) =~= s);
    }
}

proof fn lemma_trim_end_take(s: Seq<char>, i: int)
    requires
        0 <= i <= s.len(),
        forall|j: int| i <= j < s.len() ==> is_space(s[j]),
    ensures
        trim_end(s) == trim_end(s.take(i)),
    decreases s.len() - i,
{
    if i < s.len() {
        assert(s.drop_last().take(i) =~= s.take(i));
        lemma_trim_end_take(s.drop_last(), i);
    } else {
        assert(s.take(i) =~= s);
    }
}

/// The bounds `(a, b)` such that `s[a..b]` is `trim(s)`.
pub fn trim_bounds(s: &[char]) -> (r: (usize, usize))
    ensures
        r.0 <= r.1 <= s@.len(),
        s@.subrange(r.0 as int, r.1 as int) == trim(s@),
        s@.subrange(r.0 as int, s@.len() as int) == trim_start(s@),
{
    let mut a: usize = 0;
    while a < s.len() && is_space_exec(s[a])
        invariant
            a <= s@.len(),
            forall|j: int| 0 <= j < a ==> is_space(s@[j]),
        decreases s@.len() - a,
    {
        a = a + 1;
    }
    let ghost t = s@.skip(a as int);
    proof {
        lemma_trim_start_skip(s@, a as int);
        assert(trim_start(t) == t);
        assert(s@.subrange(a as int, s@.len() as int) =~= t);
    }
    let mut b: usize = s.len();
    while b > a && is_space_exec(s[b - 1])
        invariant
            a <= b <= s@.len(),
            t == s@.skip(a as int),
            forall|j: int| b <= j < s@.len() ==> is_space(s@[j]),
        decreases b,
    {
        b = b - 1;
    }
    proof {
        assert forall|j: int| b - a <= j < t.len() implies is_space(t[j]) by {
            assert(t[j] == s@[a + j]);
        }
        lemma_trim_end_take(t, (b - a) as int);
        let u = t.take((b - a) as int);
        assert(u =~= s@.subrange(a as int, b as int));
        if u.len() > 0 {
            assert(u.last() == s@[b - 1]);
        }
        assert(trim_end(u) == u);
    }
    (a, b)
}

/// `trim(s)`.
pub fn trim_chars(s: &[char]) -> (r: Vec<char>)
    ensures
        r@ == trim(s@),
{
    let (a, b) = trim_bounds(s);
    slice_chars(s, a, b)
}

// ---------------------------------------------------------------------------
// Splitting
// ---------------------------------------------------------------------------

/// Rust's `str::split(c)`: the pieces between occurrences of `c`
/// (one more piece than there are occurrences).
pub open spec fn split_on(s: Seq<char>, c: char) -> Seq<Seq<char>>
    decreases s.len(),
{
    match find_char(s, c) {
        None => seq![s],
        Some(i) => {
            if 0 <= i < s.len() {
                seq![s.take(i)] + split_on(s.skip(i + 1), c)
            } else {
                seq![s]
            }
        },
    }
}

/// Rust's `str::splitn(n, c)`: at most `n` pieces, the last holding the
/// rest of the text.
pub open spec fn splitn(s: Seq<char>, n: nat, c: char) -> Seq<Seq<char>>
    decreases s.len(),
{
    if n == 0 {
        seq![]
    } else if n == 1 {
        seq![s]
    } else {
        match find_char(s, c) {
            None => seq![s],
            Some(i) => {
                if 0 <= i < s.len() {
                    seq![s.take(i)] + splitn(s.skip(i + 1), (n - 1) as nat, c)
                } else {
                    seq![s]
                }
            },
        }
    }
}

/// `splitn(s, n, c)`.
pub fn splitn_exec(s: &[char], n: usize, c: char) -> (r: Vec<Vec<char>>)
    ensures
        vviews(r@) == splitn(s@, n as nat, c),
{
    let mut r: Vec<Vec<char>> = Vec::new();
    if n == 0 {
        assert(vviews(r@) =~= Seq::<Seq<char>>::empty());
        return r;
    }
    let mut start: usize = 0;
    let mut left: usize = n;
    assert(s@.skip(0) =~= s@);
    assert(vviews(r@) =~= Seq::<Seq<char>>::empty());
    loop
        invariant
            start <= s@.len(),
            left >= 1,
            vviews(r@) + splitn(s@.skip(start as int), left as nat, c) == splitn(s@, n as nat, c),
        decreases s@.len() - start,
    {
        let ghost t = s@.skip(start as int);
        if left == 1 {
            let piece = slice_chars(s, start, s.len());
            assert(piece@ =~= t);
            let ghost before = vviews(r@);
            r.push(piece);
            assert(vviews(r@) =~= before + seq![piece@]);
            return r;
        }
        match find_char_from(s, c, start) {
            None => {
                let piece = slice_chars(s, start, s.len());
                assert(piece@ =~= t);
                let ghost before = vviews(r@);
                r.push(piece);
                assert(vviews(r@) =~= before + seq![piece@]);
                return r;
            },
            Some(i) => {
                assert(i < s.len());
                let k = i - start;
                proof {
                    lemma_find_char(t, c);
                }
                let piece = slice_chars(s, start, i);
                assert(piece@ =~= t.take(k as int));
                assert(t.skip(k + 1) =~= s@.skip(i + 1));
                let ghost before = vviews(r@);
                r.push(piece);
                assert(vviews(r@) =~= before + seq![piece@]);
                assert(vviews(r@) + splitn(s@.skip(i + 1), (left - 1) as nat, c) =~= before
                    + splitn(t, left as nat, c));
                start = i + 1;
                left = left - 1;
            },
        }
    }
}

/// Rust's `str::split_once(c)`.
pub open spec fn split_once(s: Seq<char>, c: char) -> Option<(Seq<char>, Seq<char>)> {
    match find_char(s, c) {
        None => None,
        Some(i) => Some((s.take(i), s.skip(i + 1))),
    }
}

/// `split_once` on characters.
pub fn split_once_exec(s: &[char], c: char) -> (r: Option<(Vec<char>, Vec<char>)>)
    ensures
        match (r, split_once(s@, c)) {
            (Some((a, b)), Some((x, y))) => a@ == x && b@ == y,
            (None, None) => true,
            _ => false,
        },
{
    match find_char_exec(s, c) {
        None => None,
        Some(i) => {
            assert(i < s.len());
            let a = slice_chars(s, 0, i);
            let b = slice_chars(s, i + 1, s.len());
            assert(a@ =~= s@.take(i as int));
            assert(b@ =~= s@.skip(i + 1));
            Some((a, b))
        },
    }
}

/// `split_on(s, c)`.
pub fn split_exec(s: &[char], c: char) -> (r: Vec<Vec<char>>)
    ensures
        vviews(r@) == split_on(s@, c),
{
    let mut r: Vec<Vec<char>> = Vec::new();
    let mut start: usize = 0;
    assert(s@.skip(0) =~= s@);
    assert(vviews(r@) =~= Seq::<Seq<char>>::empty());
    loop
        invariant
            start <= s@.len(),
            vviews(r@) + split_on(s@.skip(start as int), c) == split_on(s@, c),
        decreases s@.len() - start,
    {
        let ghost t = s@.skip(start as int);
        match find_char_from(s, c, start) {
            None => {
                let piece = slice_chars(s, start, s.len());
                assert(piece@ =~= t);
                let ghost before = vviews(r@);
                r.push(piece);
                assert(vviews(r@) =~= before + seq![piece@]);
                assert(split_on(t, c) == seq![t]);
                return r;
            },
            Some(i) => {
                assert(i < s.len());
                let k = i - start;
                proof {
                    lemma_find_char(t, c);
                }
                let piece = slice_chars(s, start, i);
                assert(piece@ =~= t.take(k as int));
                assert(t.skip(k + 1) =~= s@.skip(i + 1));
                let ghost before = vviews(r@);
                r.push(piece);
                assert(vviews(r@) =~= before + seq![piece@]);
                assert(split_on(t, c) == seq![t.take(k as int)] + split_on(t.skip(k + 1), c));
                assert(vviews(r@) + split_on(s@.skip(i + 1), c) =~= before + split_on(t, c));
                start = i + 1;
            },
        }
    }
}

pub proof fn lemma_split_nonempty(s: Seq<char>, c: char)
    ensures
        split_on(s, c).len() >= 1,
    decreases s.len(),
{
    lemma_find_char(s, c);
    match find_char(s, c) {
        Some(i) => {
            lemma_split_nonempty(s.skip(i + 1), c);
        },
        None => {},
    }
}

/// `s` without one trailing carriage return.
pub open spec fn strip_cr(s: Seq<char>) -> Seq<char> {
    if s.len() > 0 && s.last() == '\r' {
        s.drop_last()
    } else {
        s
    }
}

/// Rust's `str::lines`: the text split at `\n`, a `\r` before the `\n`
/// dropped, and no empty line after a final `\n`.
pub open spec fn lines(s: Seq<char>) -> Seq<Seq<char>>
    decreases s.len(),
{
    if s.len() == 0 {
        seq![]
    } else {
        match find_char(s, '\n') {
            None => seq![s],
            Some(i) => {
                if 0 <= i < s.len() {
                    seq![strip_cr(s.take(i))] + lines(s.skip(i + 1))
                } else {
                    seq![s]
                }
            },
        }
    }
}

/// `lines(s)`.
pub fn lines_exec(s: &[char]) -> (r: Vec<Vec<char>>)
    ensures
        vviews(r@) == lines(s@),
{
    let mut r: Vec<Vec<char>> = Vec::new();
    let mut start: usize = 0;
    assert(s@.skip(0) =~= s@);
    assert(vviews(r@) =~= Seq::<Seq<char>>::empty());
    loop
        invariant
            start <= s@.len(),
            vviews(r@) + lines(s@.skip(start as int)) == lines(s@),
        decreases s@.len() - start,
    {
        let ghost t = s@.skip(start as int);
        if start == s.len() {
            assert(t.len() == 0);
            assert(vviews(r@) + lines(t) =~= vviews(r@));
            return r;
        }
        match find_char_from(s, '\n', start) {
            None => {
                let piece = slice_chars(s, start, s.len());
                assert(piece@ =~= t);
                let ghost before = vviews(r@);
                r.push(piece);
                assert(vviews(r@) =~= before + seq![piece@]);
                return r;
            },
            Some(i) => {
                assert(i < s.len());
                let k = i - start;
                proof {
                    lemma_find_char(t, '\n');
                }
                let mut end = i;
                if end > start && s[end - 1] == '\r' {
                    end = end - 1;
                }
                let piece = slice_chars(s, start, end);
                assert(piece@ =~= strip_cr(t.take(k as int)));
                assert(t.skip(k + 1) =~= s@.skip(i + 1));
                let ghost before = vviews(r@);
                r.push(piece);
                assert(vviews(r@) =~= before + seq![piece@]);
                assert(vviews(r@) + lines(s@.skip(i + 1)) =~= before + lines(t));
                start = i + 1;
            },
        }
    }
}

/// The length of the run of non-whitespace characters at the start of `s`.
pub open spec fn word_len(s: Seq<char>) -> nat
    decreases s.len(),
{
    if s.len() > 0 && !is_space(s[0]) {
        1 + word_len(s.drop_first())
    } else {
        0
    }
}

/// Rust's `str::split_whitespace`: the maximal runs of non-whitespace
/// characters.
pub open spec fn words(s: Seq<char>) -> Seq<Seq<char>>
    decreases s.len(),
{
    let t = trim_start(s);
    if t.len() == 0 || t.len() > s.len() {
        seq![]
    } else {
        let n = word_len(t);
        if 0 < n <= t.len() {
            seq![t.take(n as int)] + words(t.skip(n as int))
        } else {
            seq![]
        }
    }
}

proof fn lemma_trim_start_len(s: Seq<char>)
    ensures
        trim_start(s).len() <= s.len(),
        trim_start(s).len() > 0 ==> !is_space(trim_start(s)[0]),
        exists|k: int| 0 <= k <= s.len() && trim_start(s) == s.skip(k),
    decreases s.len(),
{
    if s.len() > 0 && is_space(s[0]) {
        lemma_trim_start_len(s.drop_first());
        let k = choose|k: int| 0 <= k <= s.drop_first().len() && trim_start(s.drop_first()) == s.drop_first().skip(k);
        assert(s.drop_first().skip(k) =~= s.skip(k + 1));
    } else {
        assert(s.skip(0) =~= s);
    }
}

proof fn lemma_word_len(s: Seq<char>, n: int)
    requires
        0 <= n <= s.len(),
        forall|j: int| 0 <= j < n ==> !is_space(s[j]),
        n == s.len() || is_space(s[n]),
    ensures
        word_len(s) == n,
    decreases n,
{
    if n > 0 {
        assert forall|j: int| 0 <= j < n - 1 implies !is_space(s.drop_first()[j]) by {
            assert(s.drop_first()[j] == s[j + 1]);
        }
        if n < s.len() {
            assert(s.drop_first()[n - 1] == s[n]);
        }
        lemma_word_len(s.drop_first(), n - 1);
    }
}

/// Every word is non-empty.
pub proof fn lemma_words_nonempty(s: Seq<char>)
    ensures
        forall|i: int| 0 <= i < words(s).len() ==> #[trigger] words(s)[i].len() > 0,
    decreases s.len(),
{
    let t = trim_start(s);
    lemma_trim_start_len(s);
    if t.len() == 0 || t.len() > s.len() {
    } else {
        let n = word_len(t);
        if 0 < n <= t.len() {
            lemma_words_nonempty(t.skip(n as int));
            let w = words(s);
            assert(w == seq![t.take(n as int)] + words(t.skip(n as int)));
            assert forall|i: int| 0 <= i < w.len() implies #[trigger] w[i].len() > 0 by {
                if i > 0 {
                    assert(w[i] == words(t.skip(n as int))[i - 1]);
                }
            }
        }
    }
}

/// `words(s)`.
pub fn words_exec(s: &[char]) -> (r: Vec<Vec<char>>)
    ensures
        vviews(r@) == words(s@),
{
    let mut r: Vec<Vec<char>> = Vec::new();
    let mut i: usize = 0;
    assert(s@.skip(0) =~= s@);
    assert(vviews(r@) =~= Seq::<Seq<char>>::empty());
    loop
        invariant
            i <= s@.len(),
            vviews(r@) + words(s@.skip(i as int)) == words(s@),
        decreases s@.len() - i,
    {
        let ghost u = s@.skip(i as int);
        let mut a: usize = i;
        while a < s.len() && is_space_exec(s[a])
            invariant
                i <= a <= s@.len(),
                forall|j: int| i <= j < a ==> is_space(s@[j]),
            decreases s@.len() - a,
        {
            a = a + 1;
        }
        proof {
            assert forall|j: int| 0 <= j < a - i implies is_space(u[j]) by {
                assert(u[j] == s@[i + j]);
            }
            lemma_trim_start_skip(u, (a - i) as int);
            assert(u.skip((a - i) as int) =~= s@.skip(a as int));
            let t = s@.skip(a as int);
            if t.len() > 0 {
                assert(t[0] == s@[a as int]);
            }
            assert(trim_start(t) == t);
            lemma_trim_start_len(u);
        }
        if a == s.len() {
            assert(words(u) == Seq::<Seq<char>>::empty());
            assert(vviews(r@) + words(u) =~= vviews(r@));
            return r;
        }
        let mut b: usize = a;
        while b < s.len() && !is_space_exec(s[b])
            invariant
                a <= b <= s@.len(),
                forall|j: int| a <= j < b ==> !is_space(s@[j]),
            decreases s@.len() - b,
        {
            b = b + 1;
        }
        let ghost t = s@.skip(a as int);
        proof {
            assert forall|j: int| 0 <= j < b - a implies !is_space(t[j]) by {
                assert(t[j] == s@[a + j]);
            }
            if b < s.len() {
                assert(t[b - a] == s@[b as int]);
            }
            lemma_word_len(t, (b - a) as int);
            assert(t.skip((b - a) as int) =~= s@.skip(b as int));
        }
        let piece = slice_chars(s, a, b);
        assert(piece@ =~= t.take((b - a) as int));
        let ghost before = vviews(r@);
        r.push(piece);
        assert(vviews(r@) =~= before + seq![piece@]);
        assert(vviews(r@) + words(s@.skip(b as int)) =~= before + words(u));
        i = b;
    }
}

/// `s` without every leading and trailing `c`.
pub open spec fn trim_char(s: Seq<char>, c: char) -> Seq<char> {
    trim_char_end(trim_char_start(s, c), c)
}

pub open spec fn trim_char_start(s: Seq<char>, c: char) -> Seq<char>
    decreases s.len(),
{
    if s.len() > 0 && s[0] == c {
        trim_char_start(s.drop_first(), c)
    } else {
        s
    }
}

pub open spec fn trim_char_end(s: Seq<char>, c: char) -> Seq<char>
    decreases s.len(),
{
    if s.len() > 0 && s.last() == c {
        trim_char_end(s.drop_last(), c)
    } else {
        s
    }
}

/// `trim_char(s, c)` (Rust's `trim_matches(c)`).
pub fn trim_char_exec(s: &[char], c: char) -> (r: Vec<char>)
    ensures
        r@ == trim_char(s@, c),
{
    let mut a: usize = 0;
    assert(s@.skip(0) =~= s@);
    while a < s.len() && s[a] == c
        invariant
            a <= s@.len(),
            trim_char_start(s@.skip(a as int), c) == trim_char_start(s@, c),
        decreases s@.len() - a,
    {
        assert(s@.skip(a as int).drop_first() =~= s@.skip(a + 1));
        a = a + 1;
    }
    let ghost t = s@.skip(a as int);
    assert(trim_char_start(t, c) == t);
    let mut b: usize = s.len();
    assert(t.take((b - a) as int) =~= t);
    while b > a && s[b - 1] == c
        invariant
            a <= b <= s@.len(),
            t == s@.skip(a as int),
            trim_char_end(t.take((b - a) as int), c) == trim_char_end(t, c),
        decreases b,
    {
        assert(t.take((b - a) as int).drop_last() =~= t.take((b - 1 - a) as int));
        b = b - 1;
    }
    let r = slice_chars(s, a, b);
    assert(r@ =~= t.take((b - a) as int));
    r
}


/// `s` without every trailing `c` (Rust's `trim_end_matches(c)`).
pub fn trim_char_end_exec(s: &[char], c: char) -> (r: Vec<char>)
    ensures
        r@ == trim_char_end(s@, c),
{
    let mut b: usize = s.len();
    assert(s@.take(b as int) =~= s@);
    while b > 0 && s[b - 1] == c
        invariant
            b <= s@.len(),
            trim_char_end(s@.take(b as int), c) == trim_char_end(s@, c),
        decreases b,
    {
        assert(s@.take(b as int).drop_last() =~= s@.take(b - 1));
        b = b - 1;
    }
    let r = slice_chars(s, 0, b);
    assert(r@ =~= s@.take(b as int));
    r
}

/// The pieces joined, with `sep` between each two.
pub open spec fn join(ps: Seq<Seq<char>>, sep: Seq<char>) -> Seq<char>
    decreases ps.len(),
{
    if ps.len() == 0 {
        seq![]
    } else if ps.len() == 1 {
        ps[0]
    } else {
        join(ps.drop_last(), sep) + sep + ps.last()
    }
}

/// `join(ps, sep)`.
pub fn join_exec(ps: &Vec<Vec<char>>, sep: &str) -> (r: Vec<char>)
    ensures
        r@ == join(vviews(ps@), sep@),
{
    let ghost pv = vviews(ps@);
    let mut r: Vec<char> = Vec::new();
    let mut i: usize = 0;
    while i < ps.len()
        invariant
            i <= ps@.len(),
            pv == vviews(ps@),
            r@ == join(pv.take(i as int), sep@),
        decreases ps@.len() - i,
    {
        assert(pv.take(i + 1).drop_last() =~= pv.take(i as int));
        if i > 0 {
            push_str(&mut r, sep);
        } else {
            assert(r@ =~= seq![]);
        }
        push_all(&mut r, ps[i].as_slice());
        i = i + 1;
        assert(r@ =~= join(pv.take(i as int), sep@));
    }
    assert(pv.take(ps@.len() as int) =~= pv);
    r
}


/// Rust's `str::replace(pat, rep)` for a non-empty `pat`: each occurrence
/// of `pat`, from the left and without overlap, replaced by `rep`.
pub open spec fn replace_text(s: Seq<char>, pat: Seq<char>, rep: Seq<char>) -> Seq<char>
    decreases s.len(),
{
    if s.len() == 0 {
        seq![]
    } else if pat.len() > 0 && starts_with(s, pat) {
        rep + replace_text(s.skip(pat.len() as int), pat, rep)
    } else {
        seq![s[0]] + replace_text(s.drop_first(), pat, rep)
    }
}

/// `replace_text(s, pat, rep)`.
pub fn replace_exec(s: &[char], pat: &str, rep: &str) -> (r: Vec<char>)
    ensures
        r@ == replace_text(s@, pat@, rep@),
{
    let pc = chars_of(pat);
    let rc = chars_of(rep);
    let mut r: Vec<char> = Vec::new();
    let mut i: usize = 0;
    assert(s@.skip(0) =~= s@);
    while i < s.len()
        invariant
            i <= s@.len(),
            pc@ == pat@,
            rc@ == rep@,
            r@ + replace_text(s@.skip(i as int), pat@, rep@) == replace_text(s@, pat@, rep@),
        decreases s@.len() - i,
    {
        let rest = slice_chars(s, i, s.len());
        assert(rest@ =~= s@.skip(i as int));
        if pc.len() > 0 && starts_with_chars(rest.as_slice(), pc.as_slice()) {
            let ghost before = r@;
            push_all(&mut r, rc.as_slice());
            assert(s@.skip(i as int).skip(pc@.len() as int) =~= s@.skip(i + pc@.len()));
            assert(r@ + replace_text(s@.skip(i + pc@.len()), pat@, rep@) =~= before + (rep@
                + replace_text(s@.skip(i as int).skip(pc@.len() as int), pat@, rep@)));
            i = i + pc.len();
        } else {
            let ghost before = r@;
            r.push(s[i]);
            assert(s@.skip(i as int).drop_first() =~= s@.skip(i + 1));
            assert(r@ + replace_text(s@.skip(i + 1), pat@, rep@) =~= before + (seq![s@[i as int]]
                + replace_text(s@.skip(i as int).drop_first(), pat@, rep@)));
            i = i + 1;
        }
    }
    assert(replace_text(s@.skip(i as int), pat@, rep@) =~= seq![]);
    assert(r@ + seq![] =~= r@);
    r
}

/// The number of bytes of `c` in UTF-8.
pub open spec fn utf8_width(c: char) -> nat {
    if (c as u32) < 0x80 {
        1
    } else if (c as u32) < 0x800 {
        2
    } else if (c as u32) < 0x10000 {
        3
    } else {
        4
    }
}

/// The number of bytes of `s` in UTF-8 (Rust's `str::len`).
pub open spec fn utf8_len(s: Seq<char>) -> nat
    decreases s.len(),
{
    if s.len() == 0 {
        0
    } else {
        utf8_len(s.drop_last()) + utf8_width(s.last())
    }
}

/// `utf8_len(s)`, where it fits in a `u64`.
pub fn utf8_len_exec(s: &[char]) -> (r: Option<u64>)
    ensures
        match r {
            Some(n) => n as nat == utf8_len(s@),
            None => utf8_len(s@) > u64::MAX,
        },
{
    let mut n: u64 = 0;
    let mut i: usize = 0;
    while i < s.len()
        invariant
            i <= s@.len(),
            n as nat == utf8_len(s@.take(i as int)),
        decreases s@.len() - i,
    {
        let c = s[i];
        let code: u32 = c as u32;
        let w: u64 = if code < 0x80 {
            1
        } else if code < 0x800 {
            2
        } else if code < 0x10000 {
            3
        } else {
            4
        };
        assert(s@.take(i + 1).drop_last() =~= s@.take(i as int));
        if n > u64::MAX - w {
            proof {
                lemma_utf8_len_prefix(s@, i + 1);
            }
            return None;
        }
        n = n + w;
        i = i + 1;
    }
    assert(s@.take(s@.len() as int) =~= s@);
    Some(n)
}

/// A prefix takes no more bytes than the whole.
pub proof fn lemma_utf8_len_prefix(s: Seq<char>, k: int)
    requires
        0 <= k <= s.len(),
    ensures
        utf8_len(s.take(k)) <= utf8_len(s),
    decreases s.len() - k,
{
    if k < s.len() {
        lemma_utf8_len_prefix(s, k + 1);
        assert(s.take(k + 1).drop_last() =~= s.take(k));
    } else {
        assert(s.take(k) =~= s);
    }
}


/// Trusted: std's `str::from_utf8`, which accepts exactly the valid UTF-8
/// byte strings and gives the text they encode.
#[verifier::external_body]
pub fn utf8_text(bytes: &[u8]) -> (r: Option<String>)
    ensures
        match r {
            Some(s) => vstd::utf8::valid_utf8(bytes@) && s@ == vstd::utf8::decode_utf8(bytes@),
            None => !vstd::utf8::valid_utf8(bytes@),
        },
{
    match std::str::from_utf8(bytes) {
        Ok(s) => Some(s.to_string()),
        Err(_) => None,
    }
}


/// The bytes `a[from..to]`.
pub fn slice_bytes(a: &[u8], from: usize, to: usize) -> (r: Vec<u8>)
    requires
        from <= to <= a@.len(),
    ensures
        r@ == a@.subrange(from as int, to as int),
{
    let mut r: Vec<u8> = Vec::new();
    let mut i: usize = from;
    while i < to
        invariant
            from <= i <= to <= a@.len(),
            r@ == a@.subrange(from as int, i as int),
        decreases to - i,
    {
        r.push(a[i]);
        i = i + 1;
        assert(r@ =~= a@.subrange(from as int, i as int));
    }
    r
}


/// Rust's `str::trim_end_matches(p)` for a text pattern: `s` with every
/// trailing repetition of `p` removed.
pub open spec fn trim_suffix_all(s: Seq<char>, p: Seq<char>) -> Seq<char>
    decreases s.len(),
{
    if p.len() > 0 && ends_with(s, p) {
        trim_suffix_all(s.take(s.len() - p.len()), p)
    } else {
        s
    }
}

/// `trim_suffix_all(s, p)`.
pub fn trim_suffix_all_exec(s: &[char], p: &str) -> (r: Vec<char>)
    ensures
        r@ == trim_suffix_all(s@, p@),
{
    let pc = chars_of(p);
    let mut cur = copy_chars(s);
    if pc.len() == 0 {
        return cur;
    }
    loop
        invariant
            pc@ == p@,
            pc@.len() > 0,
            trim_suffix_all(cur@, p@) == trim_suffix_all(s@, p@),
        decreases cur@.len(),
    {
        if !ends_with_lit(cur.as_slice(), p) {
            return cur;
        }
        let next = slice_chars(cur.as_slice(), 0, cur.len() - pc.len());
        assert(next@ =~= cur@.take(cur@.len() - pc@.len()));
        cur = next;
    }
}


/// What std's `str::to_uppercase` makes of a text.
pub uninterp spec fn upper_text(s: Seq<char>) -> Seq<char>;

/// The upper case of an ASCII character: `a` to `z` become `A` to `Z`,
/// every other character stays.
pub open spec fn ascii_upper(c: char) -> char {
    if 'a' <= c && c <= 'z' {
        ((c as u32) - 32) as char
    } else {
        c
    }
}

/// The lower case of an ASCII character: `A` to `Z` become `a` to `z`,
/// every other character stays.
pub open spec fn ascii_lower(c: char) -> char {
    if 'A' <= c && c <= 'Z' {
        ((c as u32) + 32) as char
    } else {
        c
    }
}

/// The text with `A` to `Z` made lower case.
pub open spec fn ascii_lower_text(s: Seq<char>) -> Seq<char> {
    s.map_values(|c: char| ascii_lower(c))
}

/// Every character is ASCII.
pub open spec fn is_ascii_text(s: Seq<char>) -> bool {
    forall|i: int| 0 <= i < s.len() ==> (#[trigger] s[i] as u32) < 128
}

/// The text with `a` to `z` made upper case.
pub open spec fn ascii_upper_text(s: Seq<char>) -> Seq<char> {
    s.map_values(|c: char| ascii_upper(c))
}

/// Trusted: std's `str::to_uppercase`, which maps each character to its
/// Unicode upper case (possibly several characters); the result depends on
/// the text alone, and on ASCII text it turns `a`-`z` into `A`-`Z` and
/// leaves the rest.
#[verifier::external_body]
pub fn to_upper(s: &str) -> (r: String)
    ensures
        r@ == upper_text(s@),
        is_ascii_text(s@) ==> r@ == ascii_upper_text(s@),
{
    s.to_uppercase()
}

/// Where `c` first occurs in `p + q` when it does not occur in `p`.
pub proof fn lemma_find_char_after(p: Seq<char>, q: Seq<char>, c: char)
    requires
        forall|i: int| 0 <= i < p.len() ==> p[i] != c,
    ensures
        find_char(p + q, c) == match find_char(q, c) {
            Some(i) => Some(i + p.len()),
            None => None,
        },
    decreases p.len(),
{
    if p.len() > 0 {
        assert((p + q).drop_first() =~= p.drop_first() + q);
        lemma_find_char_after(p.drop_first(), q, c);
    } else {
        assert(p + q =~= q);
    }
}

/// `c` is not found where it does not occur.
pub proof fn lemma_find_char_absent(p: Seq<char>, c: char)
    requires
        forall|i: int| 0 <= i < p.len() ==> p[i] != c,
    ensures
        find_char(p, c) is None,
    decreases p.len(),
{
    if p.len() > 0 {
        lemma_find_char_absent(p.drop_first(), c);
    }
}

} // verus!
