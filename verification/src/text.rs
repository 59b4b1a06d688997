//! String utilities the engine is built on: whitespace splitting (compiler
//! dependency output and free-form flag strings), path basename/extension
//! handling for object and target names, and decimal rendering of process
//! identifiers.

use vstd::prelude::*;

verus! {

/// Indexing the deep view of a vector of strings agrees with taking each
/// element's own view.
pub proof fn lemma_dv_strings(v: &Vec<String>)
    ensures
        v.deep_view().len() == v@.len(),
        forall|i: int| 0 <= i < v@.len() ==> v.deep_view()[i] == v@[i]@,
{
    assert forall|i: int| 0 <= i < v@.len() implies v.deep_view()[i] == v@[i]@ by {
        assert(v.deep_view()[i] =~= v@[i]@);
    }
}

/// Character-for-character equality of two string slices.
pub fn str_eq(a: &str, b: &str) -> (r: bool)
    ensures
        r == (a@ == b@),
{
    let sa = a.to_owned();
    let sb = b.to_owned();
    sa == sb
}

/// The whitespace characters that separate tokens in compiler output and
/// flag strings.
pub open spec fn is_ws(c: char) -> bool {
    c == ' ' || c == '\t' || c == '\n' || c == '\r'
}

fn is_ws_exec(c: char) -> (r: bool)
    ensures
        r == is_ws(c),
{
    c == ' ' || c == '\t' || c == '\n' || c == '\r'
}

/// Tokens of `s` split on whitespace, with `cur` the token read so far.
pub open spec fn split_ws_acc(s: Seq<char>, cur: Seq<char>) -> Seq<Seq<char>>
    decreases s.len(),
{
    if s.len() == 0 {
        if cur.len() == 0 {
            Seq::empty()
        } else {
            seq![cur]
        }
    } else if is_ws(s[0]) {
        if cur.len() == 0 {
            split_ws_acc(s.skip(1), Seq::empty())
        } else {
            seq![cur] + split_ws_acc(s.skip(1), Seq::empty())
        }
    } else {
        split_ws_acc(s.skip(1), cur.push(s[0]))
    }
}

/// The maximal runs of non-whitespace characters of `s`, in order.
pub open spec fn spec_split_ws(s: Seq<char>) -> Seq<Seq<char>> {
    split_ws_acc(s, Seq::empty())
}

proof fn lemma_split_token_acc(s: Seq<char>, m: int, cur: Seq<char>)
    requires
        0 <= m <= s.len(),
        cur.len() + m > 0,
        forall|k: int| 0 <= k < m ==> !is_ws(s[k]),
        m == s.len() || is_ws(s[m]),
    ensures
        split_ws_acc(s, cur) == seq![cur + s.subrange(0, m)] + split_ws_acc(
            s.skip(m),
            Seq::<char>::empty(),
        ),
    decreases m,
{
    if m == 0 {
        assert(cur + s.subrange(0, 0) =~= cur);
        assert(s.skip(0) =~= s);
        if s.len() == 0 {
            assert(seq![cur] + split_ws_acc(s, Seq::<char>::empty()) =~= seq![cur]);
        }
    } else {
        lemma_split_token_acc(s.skip(1), m - 1, cur.push(s[0]));
        assert(cur.push(s[0]) + s.skip(1).subrange(0, m - 1) =~= cur + s.subrange(0, m));
        assert(s.skip(1).skip(m - 1) =~= s.skip(m));
    }
}

/// Splits `s` into its maximal whitespace-separated tokens.
pub fn split_ws(s: &str) -> (r: Vec<String>)
    ensures
        r.deep_view() == spec_split_ws(s@),
{
    let n = s.unicode_len();
    let mut r: Vec<String> = Vec::new();
    let mut i: usize = 0;
    proof {
        assert(s@.skip(0) =~= s@);
        assert(r.deep_view() + split_ws_acc(s@, Seq::<char>::empty()) =~= split_ws_acc(
            s@,
            Seq::<char>::empty(),
        ));
    }
    while i < n
        invariant
            n == s@.len(),
            i <= n,
            r.deep_view() + split_ws_acc(s@.skip(i as int), Seq::<char>::empty()) == spec_split_ws(
                s@,
            ),
        decreases n - i,
    {
        let c = s.get_char(i);
        if is_ws_exec(c) {
            proof {
                assert(s@.skip(i as int)[0] == s@[i as int]);
                assert(s@.skip(i as int).skip(1) =~= s@.skip(i as int + 1));
            }
            i = i + 1;
        } else {
            let start = i;
            i = i + 1;
            while i < n && !is_ws_exec(s.get_char(i))
                invariant
                    n == s@.len(),
                    start < i <= n,
                    forall|k: int| start <= k < i ==> !is_ws(s@[k]),
                decreases n - i,
            {
                i = i + 1;
            }
            let tok = s.substring_char(start, i).to_owned();
            let ghost r0 = r.deep_view();
            r.push(tok);
            proof {
                let ss = s@.skip(start as int);
                let m = i - start;
                assert forall|k: int| 0 <= k < m implies !is_ws(ss[k]) by {
                    assert(ss[k] == s@[start + k]);
                }
                if (i as int) < n as int {
                    assert(ss[m as int] == s@[i as int]);
                }
                lemma_split_token_acc(ss, m as int, Seq::<char>::empty());
                assert(Seq::<char>::empty() + ss.subrange(0, m as int) =~= s@.subrange(
                    start as int,
                    i as int,
                ));
                assert(ss.skip(m as int) =~= s@.skip(i as int));
                assert(r.deep_view() =~= r0.push(tok@));
                assert(r0 + (seq![tok@] + split_ws_acc(s@.skip(i as int), Seq::<char>::empty()))
                    =~= r0.push(tok@) + split_ws_acc(s@.skip(i as int), Seq::<char>::empty()));
            }
        }
    }
    proof {
        assert(s@.skip(n as int) =~= Seq::<char>::empty());
        assert(r.deep_view() + Seq::<Seq<char>>::empty() =~= r.deep_view());
    }
    r
}

/// Index of the last occurrence of `c` in `s`, or `-1` when absent.
pub open spec fn last_pos(s: Seq<char>, c: char) -> int
    decreases s.len(),
{
    if s.len() == 0 {
        -1
    } else if s.last() == c {
        s.len() - 1
    } else {
        last_pos(s.drop_last(), c)
    }
}

proof fn lemma_last_pos_bounds(s: Seq<char>, c: char)
    ensures
        -1 <= last_pos(s, c) < s.len(),
        last_pos(s, c) >= 0 ==> s[last_pos(s, c)] == c,
        forall|k: int| last_pos(s, c) < k < s.len() ==> s[k] != c,
    decreases s.len(),
{
    if s.len() > 0 && s.last() != c {
        lemma_last_pos_bounds(s.drop_last(), c);
        assert forall|k: int| last_pos(s, c) < k < s.len() implies s[k] != c by {
            if k < s.len() - 1 {
                assert(s.drop_last()[k] == s[k]);
            }
        }
    }
}

proof fn lemma_last_pos_is(s: Seq<char>, c: char, i: int)
    requires
        0 <= i < s.len(),
        s[i] == c,
        forall|k: int| i < k < s.len() ==> s[k] != c,
    ensures
        last_pos(s, c) == i,
    decreases s.len(),
{
    if i < s.len() - 1 {
        lemma_last_pos_is(s.drop_last(), c, i);
    }
}

proof fn lemma_last_pos_none(s: Seq<char>, c: char)
    requires
        forall|k: int| 0 <= k < s.len() ==> s[k] != c,
    ensures
        last_pos(s, c) == -1,
    decreases s.len(),
{
    if s.len() > 0 {
        lemma_last_pos_none(s.drop_last(), c);
    }
}

/// Index of the last occurrence of `c`, if any.
pub fn rfind_char(s: &str, c: char) -> (r: Option<usize>)
    ensures
        match r {
            Option::Some(i) => i as int == last_pos(s@, c) && (i as int) < s@.len(),
            Option::None => last_pos(s@, c) == -1,
        },
{
    let n = s.unicode_len();
    let mut i: usize = n;
    while i > 0
        invariant
            n == s@.len(),
            i <= n,
            forall|k: int| i <= k < n ==> s@[k] != c,
        decreases i,
    {
        i = i - 1;
        if s.get_char(i) == c {
            proof {
                lemma_last_pos_is(s@, c, i as int);
            }
            return Option::Some(i);
        }
    }
    proof {
        lemma_last_pos_none(s@, c);
    }
    Option::None
}

/// Whether `s` begins with `p`.
pub fn starts_with_str(s: &str, p: &str) -> (r: bool)
    ensures
        r == (s@.len() >= p@.len() && s@.subrange(0, p@.len() as int) == p@),
{
    let n = s.unicode_len();
    let m = p.unicode_len();
    if n < m {
        return false;
    }
    let mut i: usize = 0;
    while i < m
        invariant
            n == s@.len(),
            m == p@.len(),
            m <= n,
            i <= m,
            forall|k: int| 0 <= k < i ==> s@[k] == p@[k],
        decreases m - i,
    {
        if s.get_char(i) != p.get_char(i) {
            proof {
                assert(s@.subrange(0, m as int)[i as int] != p@[i as int]);
            }
            return false;
        }
        i = i + 1;
    }
    proof {
        assert(s@.subrange(0, m as int) =~= p@);
    }
    true
}

/// Whether `s` ends with `p`.
pub fn ends_with_str(s: &str, p: &str) -> (r: bool)
    ensures
        r == (s@.len() >= p@.len() && s@.subrange(s@.len() - p@.len(), s@.len() as int) == p@),
{
    let n = s.unicode_len();
    let m = p.unicode_len();
    if n < m {
        return false;
    }
    let off = n - m;
    let mut i: usize = 0;
    while i < m
        invariant
            n == s@.len(),
            m == p@.len(),
            m <= n,
            off == n - m,
            i <= m,
            forall|k: int| 0 <= k < i ==> s@[off + k] == p@[k],
        decreases m - i,
    {
        if s.get_char(off + i) != p.get_char(i) {
            proof {
                assert(s@.subrange(off as int, n as int)[i as int] != p@[i as int]);
            }
            return false;
        }
        i = i + 1;
    }
    proof {
        assert(s@.subrange(off as int, n as int) =~= p@);
    }
    true
}

/// Whether a declared dependency names a source-control repository rather
/// than a package version: a secure web URL to a `.git` path, or a bare
/// git-protocol URL.
pub open spec fn spec_is_git_source(s: Seq<char>) -> bool {
    ||| (s.len() >= "https://"@.len() && s.subrange(0, "https://"@.len() as int) == "https://"@
        && s.len() >= ".git"@.len() && s.subrange(s.len() - ".git"@.len(), s.len() as int)
        == ".git"@)
    ||| (s.len() >= "git://"@.len() && s.subrange(0, "git://"@.len() as int) == "git://"@)
}

/// Decides whether a dependency is fetched from source control.
pub fn is_git_source(s: &str) -> (r: bool)
    ensures
        r == spec_is_git_source(s@),
{
    starts_with_str(s, "https://") && ends_with_str(s, ".git") || starts_with_str(s, "git://")
}

/// Index of the first occurrence of `c` in `s`, or `-1` when absent.
pub open spec fn first_pos(s: Seq<char>, c: char) -> int
    decreases s.len(),
{
    if s.len() == 0 {
        -1
    } else if s[0] == c {
        0
    } else if first_pos(s.drop_first(), c) == -1 {
        -1
    } else {
        1 + first_pos(s.drop_first(), c)
    }
}

proof fn lemma_first_pos_is(s: Seq<char>, c: char, i: int)
    requires
        0 <= i < s.len(),
        s[i] == c,
        forall|k: int| 0 <= k < i ==> s[k] != c,
    ensures
        first_pos(s, c) == i,
    decreases s.len(),
{
    if i > 0 {
        let t = s.drop_first();
        assert forall|k: int| 0 <= k < i - 1 implies t[k] != c by {
            assert(t[k] == s[k + 1]);
        }
        assert(t[i - 1] == s[i]);
        lemma_first_pos_is(t, c, i - 1);
    }
}

proof fn lemma_first_pos_none(s: Seq<char>, c: char)
    requires
        forall|k: int| 0 <= k < s.len() ==> s[k] != c,
    ensures
        first_pos(s, c) == -1,
    decreases s.len(),
{
    if s.len() > 0 {
        let t = s.drop_first();
        assert forall|k: int| 0 <= k < t.len() implies t[k] != c by {
            assert(t[k] == s[k + 1]);
        }
        lemma_first_pos_none(t, c);
    }
}

/// Index of the first occurrence of `c` at or after `start`, if any.
pub fn find_char_from(s: &str, c: char, start: usize) -> (r: Option<usize>)
    requires
        start <= s@.len(),
    ensures
        match r {
            Option::Some(i) => start <= i && (i as int) < s@.len() && i - start == first_pos(
                s@.skip(start as int),
                c,
            ),
            Option::None => first_pos(s@.skip(start as int), c) == -1,
        },
{
    let n = s.unicode_len();
    let mut i: usize = start;
    while i < n
        invariant
            n == s@.len(),
            start <= i <= n,
            forall|k: int| start <= k < i ==> s@[k] != c,
        decreases n - i,
    {
        if s.get_char(i) == c {
            proof {
                let t = s@.skip(start as int);
                assert(t[i - start] == s@[i as int]);
                assert forall|k: int| 0 <= k < i - start implies t[k] != c by {
                    assert(t[k] == s@[start + k]);
                }
                lemma_first_pos_is(t, c, i - start);
            }
            return Option::Some(i);
        }
        i = i + 1;
    }
    proof {
        let t = s@.skip(start as int);
        assert forall|k: int| 0 <= k < t.len() implies t[k] != c by {
            assert(t[k] == s@[start + k]);
        }
        lemma_first_pos_none(t, c);
    }
    Option::None
}

/// The final path component: everything after the last `/`.
pub open spec fn spec_basename(s: Seq<char>) -> Seq<char> {
    s.subrange(last_pos(s, '/') + 1, s.len() as int)
}

/// Where the stem of a file name ends: at the last `.` of the final path
/// component, unless that `.` is the component's first character (a hidden
/// file) or the component has no `.` at all.
pub open spec fn spec_stem_end(s: Seq<char>) -> int {
    let b = last_pos(s, '/') + 1;
    let d = last_pos(s, '.');
    if d > b {
        d
    } else {
        s.len() as int
    }
}

/// `s` with its extension replaced by `ext` (which carries its own dot), or
/// with `ext` appended when `s` has no extension.
pub open spec fn spec_with_ext(s: Seq<char>, ext: Seq<char>) -> Seq<char> {
    s.subrange(0, spec_stem_end(s)) + ext
}

/// Replaces the extension of the final path component of `s` with `ext`
/// (`ext` includes the leading dot), appending when there is none.
pub fn replace_extension(s: &str, ext: &str) -> (r: String)
    ensures
        r@ == spec_with_ext(s@, ext@),
{
    let n = s.unicode_len();
    let slash = rfind_char(s, '/');
    let dot = rfind_char(s, '.');
    let b = match slash {
        Option::Some(i) => i + 1,
        Option::None => 0,
    };
    let stem_end = match dot {
        Option::Some(d) => if d > b {
            d
        } else {
            n
        },
        Option::None => n,
    };
    proof {
        lemma_last_pos_bounds(s@, '/');
        lemma_last_pos_bounds(s@, '.');
    }
    let stem = s.substring_char(0, stem_end).to_owned();
    stem.concat(ext)
}

/// The final path component of `s` as a fresh string.
pub fn basename(s: &str) -> (r: String)
    ensures
        r@ == spec_basename(s@),
{
    let n = s.unicode_len();
    let b = match rfind_char(s, '/') {
        Option::Some(i) => i + 1,
        Option::None => 0,
    };
    proof {
        lemma_last_pos_bounds(s@, '/');
    }
    s.substring_char(b, n).to_owned()
}

/// A replaced extension really is the tail of the resulting name: the
/// result ends with `ext`.
pub proof fn lemma_with_ext_suffix(s: Seq<char>, ext: Seq<char>)
    ensures
        spec_with_ext(s, ext).len() >= ext.len(),
        spec_with_ext(s, ext).subrange(
            spec_with_ext(s, ext).len() - ext.len(),
            spec_with_ext(s, ext).len() as int,
        ) == ext,
{
    lemma_last_pos_bounds(s, '/');
    lemma_last_pos_bounds(s, '.');
    let stem = s.subrange(0, spec_stem_end(s));
    assert((stem + ext).subrange(stem.len() as int, (stem.len() + ext.len()) as int) =~= ext);
}

/// The object file name a source compiles to: the source's basename with
/// its extension replaced by `.o`.
pub open spec fn spec_object_name(s: Seq<char>) -> Seq<char> {
    spec_with_ext(spec_basename(s), ".o"@)
}

/// Object file name for a source path.
pub fn object_name(src: &str) -> (r: String)
    ensures
        r@ == spec_object_name(src@),
{
    let base = basename(src);
    replace_extension(base.as_str(), ".o")
}

/// Whether the file name carries a C/C++ header extension (`.h` or `.hpp`),
/// judged like a path extension: the part of the final component after its
/// last dot.
pub open spec fn spec_is_header(s: Seq<char>) -> bool {
    let e = spec_ext(s);
    e == Option::Some("h"@) || e == Option::Some("hpp"@)
}

/// The extension of the final path component, without its dot.
pub open spec fn spec_ext(s: Seq<char>) -> Option<Seq<char>> {
    let b = last_pos(s, '/') + 1;
    let d = last_pos(s, '.');
    if d > b {
        Option::Some(s.subrange(d + 1, s.len() as int))
    } else {
        Option::None
    }
}

/// Decides whether a path names a header file.
pub fn is_header_path(s: &str) -> (r: bool)
    ensures
        r == spec_is_header(s@),
{
    let n = s.unicode_len();
    let slash = rfind_char(s, '/');
    let dot = rfind_char(s, '.');
    let b = match slash {
        Option::Some(i) => i + 1,
        Option::None => 0,
    };
    proof {
        lemma_last_pos_bounds(s@, '/');
        lemma_last_pos_bounds(s@, '.');
    }
    match dot {
        Option::Some(d) => {
            if d > b {
                let e = s.substring_char(d + 1, n);
                str_eq(e, "h") || str_eq(e, "hpp")
            } else {
                false
            }
        },
        Option::None => false,
    }
}

/// Joins two path fragments with a single separator.
pub fn join_path(a: &str, b: &str) -> (r: String)
    ensures
        r@ == a@ + "/"@ + b@,
{
    let r = a.to_owned();
    let r = r.concat("/");
    r.concat(b)
}

/// Concatenation of a prefix and a value, as used for single-string flags.
pub fn prefixed(prefix: &str, value: &str) -> (r: String)
    ensures
        r@ == prefix@ + value@,
{
    let r = prefix.to_owned();
    r.concat(value)
}

/// Decimal digits of `n`, most significant first.
pub open spec fn spec_dec(n: int) -> Seq<char>
    decreases n,
{
    if n < 10 {
        seq![digit_char(n)]
    } else {
        spec_dec(n / 10) + seq![digit_char(n % 10)]
    }
}

/// The character for one decimal digit.
pub open spec fn digit_char(d: int) -> char {
    if d == 0 {
        '0'
    } else if d == 1 {
        '1'
    } else if d == 2 {
        '2'
    } else if d == 3 {
        '3'
    } else if d == 4 {
        '4'
    } else if d == 5 {
        '5'
    } else if d == 6 {
        '6'
    } else if d == 7 {
        '7'
    } else if d == 8 {
        '8'
    } else {
        '9'
    }
}

fn digit_str(d: u64) -> (r: &'static str)
    requires
        d < 10,
    ensures
        r@ == seq![digit_char(d as int)],
{
    let r = if d == 0 {
        "0"
    } else if d == 1 {
        "1"
    } else if d == 2 {
        "2"
    } else if d == 3 {
        "3"
    } else if d == 4 {
        "4"
    } else if d == 5 {
        "5"
    } else if d == 6 {
        "6"
    } else if d == 7 {
        "7"
    } else if d == 8 {
        "8"
    } else {
        "9"
    };
    proof {
        reveal_strlit("0");
        reveal_strlit("1");
        reveal_strlit("2");
        reveal_strlit("3");
        reveal_strlit("4");
        reveal_strlit("5");
        reveal_strlit("6");
        reveal_strlit("7");
        reveal_strlit("8");
        reveal_strlit("9");
        assert(r@ =~= seq![digit_char(d as int)]);
    }
    r
}

/// Renders an unsigned number in decimal.
pub fn u64_to_string(n: u64) -> (r: String)
    ensures
        r@ == spec_dec(n as int),
    decreases n,
{
    if n < 10 {
        digit_str(n).to_owned()
    } else {
        let high = u64_to_string(n / 10);
        high.concat(digit_str(n % 10))
    }
}

} // verus!
