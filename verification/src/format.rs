//! Record formatting: blind placeholder substitution over a template.
//!
//! Each of the five placeholders is replaced by plain left-to-right,
//! non-overlapping substring replacement, deliberately without any
//! escaping: a literal `%n` in surrounding template text is replaced too,
//! which is the documented sharp edge of this formatter.

use vstd::prelude::*;
use vstd::string::StrSliceExecFns;
use vstd::string::StringExecFns;

use crate::submodule::Submodule;
use crate::submodule::SubmoduleView;
use crate::text::starts_with;
use crate::text::starts_with_str;

verus! {

/// Left-to-right, non-overlapping replacement of every occurrence of `pat`
/// in `s` by `sub`. With an empty `pat`, `s` is returned unchanged.
pub open spec fn replace_spec(s: Seq<char>, pat: Seq<char>, sub: Seq<char>) -> Seq<char>
    decreases s.len(),
{
    if s.len() == 0 {
        s
    } else if pat.len() > 0 && starts_with(s, pat) {
        sub + replace_spec(s.skip(pat.len() as int), pat, sub)
    } else {
        seq![s[0]] + replace_spec(s.skip(1), pat, sub)
    }
}

pub fn replace_str(s: &str, pat: &str, sub: &str) -> (r: String)
    ensures
        r@ == replace_spec(s@, pat@, sub@),
{
    let n = s.unicode_len();
    let m = pat.unicode_len();
    let mut r = String::new();
    proof {
        assert(s@.skip(0) =~= s@);
        assert(r@ + replace_spec(s@, pat@, sub@) =~= replace_spec(s@, pat@, sub@));
    }
    let mut i: usize = 0;
    while i < n
        invariant
            0 <= i <= n,
            n == s@.len(),
            m == pat@.len(),
            replace_spec(s@, pat@, sub@) == r@ + replace_spec(s@.skip(i as int), pat@, sub@),
        decreases n - i,
    {
        let rem = s.substring_char(i, n);
        proof {
            assert(s@.skip(i as int) =~= rem@);
        }
        if m > 0 && starts_with_str(rem, pat) {
            let ghost prev = r@;
            r.append(sub);
            proof {
                assert(s@.skip(i as int).skip(m as int) =~= s@.skip(i as int + m as int));
                assert((prev + sub@) + replace_spec(s@.skip(i as int + m as int), pat@, sub@)
                    =~= prev + (sub@ + replace_spec(s@.skip(i as int + m as int), pat@, sub@)));
            }
            i += m;
        } else {
            let c = s.substring_char(i, i + 1);
            let ghost prev = r@;
            r.append(c);
            proof {
                assert(s@.skip(i as int)[0] == s@[i as int]);
                assert(c@ =~= seq![s@[i as int]]);
                assert(s@.skip(i as int).skip(1) =~= s@.skip(i as int + 1));
                assert((prev + c@) + replace_spec(s@.skip(i as int + 1), pat@, sub@) =~= prev + (
                seq![s@[i as int]] + replace_spec(s@.skip(i as int + 1), pat@, sub@)));
            }
            i += 1;
        }
    }
    proof {
        assert(s@.skip(i as int).len() == 0);
        assert(r@ + replace_spec(s@.skip(i as int), pat@, sub@) =~= r@);
    }
    r
}

/// The suffix of `s` after the last occurrence of `sep`; all of `s` when
/// `sep` does not occur. This is the basename of a name read as a path.
pub open spec fn basename_spec(s: Seq<char>, sep: char) -> Seq<char>
    decreases s.len(),
{
    if s.len() == 0 {
        s
    } else if s[s.len() - 1] == sep {
        Seq::empty()
    } else {
        basename_spec(s.take(s.len() - 1), sep).push(s[s.len() - 1])
    }
}

pub fn basename_str<'a>(s: &'a str, sep: char) -> (r: &'a str)
    ensures
        r@ == basename_spec(s@, sep),
{
    let n = s.unicode_len();
    let mut j: usize = n;
    proof {
        assert(s@.take(n as int) =~= s@);
        assert(basename_spec(s@, sep) + s@.skip(n as int) =~= basename_spec(s@, sep));
    }
    while j > 0 && s.get_char(j - 1) != sep
        invariant
            0 <= j <= n,
            n == s@.len(),
            basename_spec(s@, sep) == basename_spec(s@.take(j as int), sep) + s@.skip(j as int),
        decreases j,
    {
        proof {
            assert(s@.take(j as int)[j - 1] == s@[j - 1]);
            assert(s@.take(j as int).take(j as int - 1) =~= s@.take(j as int - 1));
            assert(basename_spec(s@.take(j as int - 1), sep).push(s@[j - 1]) + s@.skip(j as int)
                =~= basename_spec(s@.take(j as int - 1), sep) + s@.skip(j as int - 1));
        }
        j -= 1;
    }
    let r = s.substring_char(j, n);
    proof {
        if j > 0 {
            assert(s@.take(j as int)[j - 1] == s@[j - 1]);
        }
        assert(basename_spec(s@.take(j as int), sep).len() == 0);
        assert(r@ =~= s@.skip(j as int));
        assert(basename_spec(s@, sep) =~= r@);
    }
    r
}

/// The branch, or the empty text when none was given.
pub open spec fn branch_or_empty(b: Option<Seq<char>>) -> Seq<char> {
    match b {
        Some(s) => s,
        None => Seq::empty(),
    }
}

/// The rendering of record `m` under template `fmt`: the five placeholders
/// `%n` (basename of the name under separator `sep`), `%N` (full name),
/// `%p` (path), `%u` (url) and `%b` (branch, or empty) are substituted in
/// that fixed order by blind substring replacement.
pub open spec fn render_spec(m: SubmoduleView, fmt: Seq<char>, sep: char) -> Seq<char> {
    replace_spec(
        replace_spec(
            replace_spec(
                replace_spec(
                    replace_spec(fmt, "%n"@, basename_spec(m.name, sep)),
                    "%N"@,
                    m.name,
                ),
                "%p"@,
                m.path,
            ),
            "%u"@,
            m.url,
        ),
        "%b"@,
        branch_or_empty(m.branch),
    )
}

/// Relies on std::path::MAIN_SEPARATOR: documented as `/` on Unix-like
/// systems and `\` on Windows.
#[verifier::external_body]
fn path_separator() -> (c: char)
    ensures
        c == '/' || c == '\\',
{
    std::path::MAIN_SEPARATOR
}

impl Submodule {
    /// Renders this record under `fmt`, taking the path separator for `%n`
    /// as an explicit argument.
    pub fn display_fmt_with(&self, fmt: &str, sep: char) -> (r: String)
        ensures
            r@ == render_spec(self@, fmt@, sep),
    {
        let base = basename_str(self.name.as_str(), sep);
        let r1 = replace_str(fmt, "%n", base);
        let r2 = replace_str(r1.as_str(), "%N", self.name.as_str());
        let r3 = replace_str(r2.as_str(), "%p", self.path.as_str());
        let r4 = replace_str(r3.as_str(), "%u", self.url.as_str());
        let b: &str = match &self.branch {
            Some(s) => s.as_str(),
            None => "",
        };
        proof {
            reveal_strlit("");
            assert(b@ =~= branch_or_empty(self@.branch));
        }
        replace_str(r4.as_str(), "%b", b)
    }

    /// Renders this record under `fmt` with the platform path separator.
    pub fn display_fmt(&self, fmt: &str) -> (r: String)
        ensures
            r@ == render_spec(self@, fmt@, '/') || r@ == render_spec(self@, fmt@, '\\'),
    {
        let sep = path_separator();
        self.display_fmt_with(fmt, sep)
    }
}

} // verus!
