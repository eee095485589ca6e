//! Character-level text helpers: whitespace classification, trimming,
//! line splitting and substring search, each as a spec function with a
//! verified executable counterpart.

use vstd::prelude::*;
use vstd::string::StrSliceExecFns;

verus! {

/// The characters with the Unicode `White_Space` property, exactly the set
/// that line trimming removes at either end of a line.
pub open spec fn is_ws_char(c: char) -> bool {
    ||| c == ' '
    ||| c == '\t'
    ||| c == '\n'
    ||| c == '\r'
    ||| c == '\u{000B}'
    ||| c == '\u{000C}'
    ||| c == '\u{0085}'
    ||| c == '\u{00A0}'
    ||| c == '\u{1680}'
    ||| c == '\u{2000}'
    ||| c == '\u{2001}'
    ||| c == '\u{2002}'
    ||| c == '\u{2003}'
    ||| c == '\u{2004}'
    ||| c == '\u{2005}'
    ||| c == '\u{2006}'
    ||| c == '\u{2007}'
    ||| c == '\u{2008}'
    ||| c == '\u{2009}'
    ||| c == '\u{200A}'
    ||| c == '\u{2028}'
    ||| c == '\u{2029}'
    ||| c == '\u{202F}'
    ||| c == '\u{205F}'
    ||| c == '\u{3000}'
}

pub fn is_ws(c: char) -> (b: bool)
    ensures
        b == is_ws_char(c),
{
    c == ' ' || c == '\t' || c == '\n' || c == '\r' || c == '\u{000B}' || c == '\u{000C}'
        || c == '\u{0085}' || c == '\u{00A0}' || c == '\u{1680}' || c == '\u{2000}'
        || c == '\u{2001}' || c == '\u{2002}' || c == '\u{2003}' || c == '\u{2004}'
        || c == '\u{2005}' || c == '\u{2006}' || c == '\u{2007}' || c == '\u{2008}'
        || c == '\u{2009}' || c == '\u{200A}' || c == '\u{2028}' || c == '\u{2029}'
        || c == '\u{202F}' || c == '\u{205F}' || c == '\u{3000}'
}

/// Index of the first occurrence of `c` in `s`, or `s.len()` if absent.
pub open spec fn find_idx(s: Seq<char>, c: char) -> int
    decreases s.len(),
{
    if s.len() == 0 {
        0
    } else if s[0] == c {
        0
    } else {
        1 + find_idx(s.skip(1), c)
    }
}

pub proof fn lemma_find_idx(s: Seq<char>, c: char)
    ensures
        0 <= find_idx(s, c) <= s.len(),
        find_idx(s, c) < s.len() ==> s[find_idx(s, c)] == c,
        forall|j: int| 0 <= j < find_idx(s, c) ==> s[j] != c,
    decreases s.len(),
{
    if s.len() == 0 {
    } else if s[0] == c {
    } else {
        lemma_find_idx(s.skip(1), c);
        assert forall|j: int| 0 <= j < find_idx(s, c) implies s[j] != c by {
            if j > 0 {
                assert(s.skip(1)[j - 1] == s[j]);
            }
        }
        if find_idx(s, c) < s.len() {
            assert(s.skip(1)[find_idx(s, c) - 1] == s[find_idx(s, c)]);
        }
    }
}

/// If `c` occurs somewhere in `s`, the first occurrence lies strictly inside.
pub proof fn lemma_find_idx_present(s: Seq<char>, c: char, w: int)
    requires
        0 <= w < s.len(),
        s[w] == c,
    ensures
        find_idx(s, c) < s.len(),
        find_idx(s, c) <= w,
{
    lemma_find_idx(s, c);
    if find_idx(s, c) > w {
        assert(s[w] != c);
    }
}

/// The first occurrence of `c` is the position of a witness before which
/// `c` never occurs.
pub proof fn lemma_find_idx_exact(s: Seq<char>, c: char, w: int)
    requires
        0 <= w < s.len(),
        s[w] == c,
        forall|j: int| 0 <= j < w ==> s[j] != c,
    ensures
        find_idx(s, c) == w,
{
    lemma_find_idx(s, c);
    lemma_find_idx_present(s, c, w);
    if find_idx(s, c) < w {
        assert(s[find_idx(s, c)] != c);
    }
}

/// A first occurrence inside `a` is also the first occurrence inside `a + b`.
pub proof fn lemma_find_idx_concat_l(a: Seq<char>, b: Seq<char>, c: char)
    requires
        find_idx(a, c) < a.len(),
    ensures
        find_idx(a + b, c) == find_idx(a, c),
    decreases a.len(),
{
    lemma_find_idx(a, c);
    if a[0] == c {
        assert((a + b)[0] == c);
    } else {
        assert((a + b).skip(1) =~= a.skip(1) + b);
        lemma_find_idx_concat_l(a.skip(1), b, c);
    }
}

pub fn find_in_str(s: &str, c: char) -> (r: Option<usize>)
    ensures
        match r {
            Some(i) => find_idx(s@, c) == i as int && (i as int) < s@.len(),
            None => find_idx(s@, c) == s@.len(),
        },
{
    let n = s.unicode_len();
    let mut i: usize = 0;
    while i < n
        invariant
            0 <= i <= n,
            n == s@.len(),
            forall|j: int| 0 <= j < i ==> s@[j] != c,
        decreases n - i,
    {
        if s.get_char(i) == c {
            proof {
                lemma_find_idx(s@, c);
                if find_idx(s@, c) < i {
                    assert(s@[find_idx(s@, c)] != c);
                }
                if find_idx(s@, c) > i {
                    assert(s@[i as int] != c);
                }
            }
            return Some(i);
        }
        i += 1;
    }
    proof {
        lemma_find_idx(s@, c);
        if find_idx(s@, c) < s@.len() {
            assert(s@[find_idx(s@, c)] != c);
        }
    }
    None
}

/// `p` is a prefix of `s`.
pub open spec fn starts_with(s: Seq<char>, p: Seq<char>) -> bool {
    p.len() <= s.len() && s.take(p.len() as int) == p
}

pub fn starts_with_str(s: &str, p: &str) -> (b: bool)
    ensures
        b == starts_with(s@, p@),
{
    let n = s.unicode_len();
    let m = p.unicode_len();
    if m > n {
        return false;
    }
    let mut i: usize = 0;
    while i < m
        invariant
            0 <= i <= m,
            m == p@.len(),
            n == s@.len(),
            m <= n,
            forall|j: int| 0 <= j < i ==> s@[j] == p@[j],
        decreases m - i,
    {
        if s.get_char(i) != p.get_char(i) {
            proof {
                assert(s@.take(p@.len() as int)[i as int] == s@[i as int]);
            }
            return false;
        }
        i += 1;
    }
    proof {
        assert(s@.take(p@.len() as int) =~= p@);
    }
    true
}

/// `s` with leading whitespace removed.
pub open spec fn trim_start_spec(s: Seq<char>) -> Seq<char>
    decreases s.len(),
{
    if s.len() == 0 {
        s
    } else if is_ws_char(s[0]) {
        trim_start_spec(s.skip(1))
    } else {
        s
    }
}

/// `s` with trailing whitespace removed.
pub open spec fn trim_end_spec(s: Seq<char>) -> Seq<char>
    decreases s.len(),
{
    if s.len() == 0 {
        s
    } else if is_ws_char(s[s.len() - 1]) {
        trim_end_spec(s.take(s.len() - 1))
    } else {
        s
    }
}

/// `s` with whitespace removed at both ends.
pub open spec fn trim_spec(s: Seq<char>) -> Seq<char> {
    trim_end_spec(trim_start_spec(s))
}

/// Trimming a string that has no whitespace at either end changes nothing.
pub proof fn lemma_trim_noop(s: Seq<char>)
    requires
        s.len() > 0,
        !is_ws_char(s[0]),
        !is_ws_char(s[s.len() - 1]),
    ensures
        trim_spec(s) == s,
{
}

pub fn trim_str<'a>(s: &'a str) -> (r: &'a str)
    ensures
        r@ == trim_spec(s@),
{
    let n = s.unicode_len();
    let mut lo: usize = 0;
    proof {
        assert(s@.skip(0) =~= s@);
    }
    while lo < n && is_ws(s.get_char(lo))
        invariant
            0 <= lo <= n,
            n == s@.len(),
            trim_start_spec(s@) == trim_start_spec(s@.skip(lo as int)),
        decreases n - lo,
    {
        proof {
            assert(s@.skip(lo as int)[0] == s@[lo as int]);
            assert(s@.skip(lo as int).skip(1) =~= s@.skip(lo as int + 1));
        }
        lo += 1;
    }
    proof {
        if lo < n {
            assert(s@.skip(lo as int)[0] == s@[lo as int]);
        }
        assert(trim_start_spec(s@) == s@.skip(lo as int));
    }
    let mut hi: usize = n;
    while hi > lo && is_ws(s.get_char(hi - 1))
        invariant
            lo <= hi <= n,
            n == s@.len(),
            trim_start_spec(s@) == s@.skip(lo as int),
            trim_end_spec(s@.subrange(lo as int, n as int)) == trim_end_spec(
                s@.subrange(lo as int, hi as int),
            ),
        decreases hi,
    {
        proof {
            let sub = s@.subrange(lo as int, hi as int);
            assert(sub[sub.len() - 1] == s@[hi - 1]);
            assert(sub.take(sub.len() - 1) =~= s@.subrange(lo as int, hi as int - 1));
        }
        hi -= 1;
    }
    let r = s.substring_char(lo, hi);
    proof {
        let sub = s@.subrange(lo as int, hi as int);
        if hi > lo {
            assert(sub[sub.len() - 1] == s@[hi - 1]);
        }
        assert(trim_end_spec(s@.subrange(lo as int, hi as int)) == sub);
        assert(s@.skip(lo as int) =~= s@.subrange(lo as int, n as int));
    }
    r
}

/// One trailing carriage return removed, as line splitting does before a
/// line feed.
pub open spec fn strip_cr(l: Seq<char>) -> Seq<char> {
    if l.len() > 0 && l[l.len() - 1] == '\r' {
        l.take(l.len() - 1)
    } else {
        l
    }
}

/// The lines of `s`: pieces between line feeds, each with one trailing
/// carriage return removed; a final piece without its own line feed keeps
/// any trailing carriage return, and a trailing line feed adds no empty
/// final line.
pub open spec fn lines_spec(s: Seq<char>) -> Seq<Seq<char>>
    decreases s.len(),
    via lines_spec_decreases
{
    if s.len() == 0 {
        Seq::empty()
    } else if find_idx(s, '\n') == s.len() {
        seq![s]
    } else {
        seq![strip_cr(s.take(find_idx(s, '\n')))] + lines_spec(s.skip(find_idx(s, '\n') + 1))
    }
}

#[via_fn]
proof fn lines_spec_decreases(s: Seq<char>) {
    lemma_find_idx(s, '\n');
}

/// Splitting distributes over concatenation at a line boundary.
pub proof fn lemma_lines_concat(a: Seq<char>, b: Seq<char>)
    requires
        a.len() == 0 || a[a.len() - 1] == '\n',
    ensures
        lines_spec(a + b) == lines_spec(a) + lines_spec(b),
    decreases a.len(),
{
    if a.len() == 0 {
        assert(a + b =~= b);
        assert(lines_spec(a) + lines_spec(b) =~= lines_spec(b));
    } else {
        lemma_find_idx_present(a, '\n', a.len() - 1);
        let i = find_idx(a, '\n');
        lemma_find_idx(a, '\n');
        lemma_find_idx_concat_l(a, b, '\n');
        assert((a + b).take(i) =~= a.take(i));
        assert((a + b).skip(i + 1) =~= a.skip(i + 1) + b);
        if a.skip(i + 1).len() > 0 {
            assert(a.skip(i + 1)[a.skip(i + 1).len() - 1] == a[a.len() - 1]);
        }
        lemma_lines_concat(a.skip(i + 1), b);
        assert(lines_spec(a + b) =~= lines_spec(a) + lines_spec(b));
    }
}

/// A line-feed-free piece followed by one line feed is a single line.
pub proof fn lemma_lines_single(l: Seq<char>)
    requires
        forall|j: int| 0 <= j < l.len() ==> l[j] != '\n',
        l.len() > 0 ==> l[l.len() - 1] != '\r',
    ensures
        lines_spec(l.push('\n')) == seq![l],
{
    let s = l.push('\n');
    lemma_find_idx_exact(s, '\n', l.len() as int);
    assert(s.take(l.len() as int) =~= l);
    assert(s.skip(l.len() as int + 1) =~= Seq::<char>::empty());
    assert(lines_spec(Seq::<char>::empty()) == Seq::<Seq<char>>::empty());
    assert(strip_cr(l) == l);
    assert(lines_spec(s) =~= seq![l]);
}

/// A non-empty, line-feed-free piece without a final line feed is a single
/// line too, kept whole.
pub proof fn lemma_lines_unterminated(l: Seq<char>)
    requires
        l.len() > 0,
        forall|j: int| 0 <= j < l.len() ==> l[j] != '\n',
    ensures
        lines_spec(l) == seq![l],
{
    lemma_find_idx(l, '\n');
    if find_idx(l, '\n') < l.len() {
        assert(l[find_idx(l, '\n')] != '\n');
    }
}

/// The views of a sequence of string slices.
pub open spec fn str_views(v: Seq<&str>) -> Seq<Seq<char>> {
    v.map_values(|t: &str| t@)
}

pub fn split_lines<'a>(s: &'a str) -> (r: Vec<&'a str>)
    ensures
        str_views(r@) == lines_spec(s@),
{
    let n = s.unicode_len();
    let mut out: Vec<&'a str> = Vec::new();
    let mut start: usize = 0;
    proof {
        assert(s@.skip(0) =~= s@);
        assert(str_views(out@) + lines_spec(s@) =~= lines_spec(s@));
    }
    while start < n
        invariant
            0 <= start <= n,
            n == s@.len(),
            lines_spec(s@) == str_views(out@) + lines_spec(s@.skip(start as int)),
        decreases n - start,
    {
        let rem = s.substring_char(start, n);
        proof {
            assert(s@.skip(start as int) =~= rem@);
        }
        match find_in_str(rem, '\n') {
            None => {
                out.push(rem);
                proof {
                    assert(lines_spec(rem@) =~= seq![rem@]);
                    assert(str_views(out@) =~= str_views(out@.drop_last()).push(rem@));
                    assert(str_views(out@.drop_last()).push(rem@) + lines_spec(
                        s@.skip(n as int),
                    ) =~= str_views(out@.drop_last()) + seq![rem@]);
                }
                start = n;
            },
            Some(j) => {
                let line_end: usize = if j > 0 && rem.get_char(j - 1) == '\r' {
                    j - 1
                } else {
                    j
                };
                let line = rem.substring_char(0, line_end);
                proof {
                    let jj = j as int;
                    assert(rem@.take(jj).len() == jj);
                    if jj > 0 {
                        assert(rem@.take(jj)[jj - 1] == rem@[jj - 1]);
                        if rem@[jj - 1] == '\r' {
                            assert(rem@.take(jj).take(jj - 1) =~= rem@.take(jj - 1));
                        }
                    }
                    assert(strip_cr(rem@.take(jj)) == rem@.take(line_end as int));
                    assert(line@ =~= rem@.take(line_end as int));
                    assert(lines_spec(rem@) == seq![line@] + lines_spec(rem@.skip(jj + 1)));
                    assert(rem@.skip(jj + 1) =~= s@.skip(start + jj + 1));
                }
                let ghost prev = out@;
                out.push(line);
                proof {
                    assert(str_views(out@) =~= str_views(prev).push(line@));
                    assert(str_views(prev) + (seq![line@] + lines_spec(
                        s@.skip(start + j + 1),
                    )) =~= str_views(prev).push(line@) + lines_spec(s@.skip(start + j + 1)));
                }
                start = start + j + 1;
            },
        }
    }
    proof {
        assert(s@.skip(start as int).len() == 0);
        assert(str_views(out@) + lines_spec(s@.skip(start as int)) =~= str_views(out@));
    }
    out
}

} // verus!
