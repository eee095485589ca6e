//! General properties of the parser, proved once and for all inputs.

use vstd::prelude::*;

use crate::parse::AccView;
use crate::parse::ScanResult;
use crate::parse::acc_init;
use crate::parse::acc_invalid;
use crate::parse::finalize;
use crate::parse::header_acc;
use crate::parse::opt_rec_seq;
use crate::parse::parse_text_spec;
use crate::parse::scan_from;
use crate::parse::step;
use crate::parse::tidy_lines;
use crate::submodule::SubmoduleView;
use crate::text::find_idx;
use crate::text::is_ws_char;
use crate::text::lines_spec;
use crate::text::starts_with;
use crate::text::trim_spec;

verus! {

/// A trimmed line that opens a submodule section.
pub open spec fn is_submodule_header(l: Seq<char>) -> bool {
    starts_with(l, "[submodule"@)
}

/// The number of submodule section headers among a sequence of lines.
pub open spec fn count_headers(ls: Seq<Seq<char>>) -> int
    decreases ls.len(),
{
    if ls.len() == 0 {
        0
    } else {
        (if is_submodule_header(ls[0]) {
            1int
        } else {
            0int
        }) + count_headers(ls.skip(1))
    }
}

/// The number of submodule section headers among the trimmed lines of
/// manifest text.
pub open spec fn submodule_header_count(t: Seq<char>) -> int {
    count_headers(tidy_lines(lines_spec(t)))
}

/// One when the accumulator holds a pending name, zero otherwise.
pub open spec fn name_bit(a: AccView) -> int {
    if a.name is Some {
        1
    } else {
        0
    }
}

proof fn lemma_scan_bound(a: AccView, ls: Seq<Seq<char>>)
    ensures
        count_headers(ls) >= 0,
        scan_from(a, ls).recs.len() + name_bit(scan_from(a, ls).acc) <= name_bit(a)
            + count_headers(ls),
    decreases ls.len(),
{
    if ls.len() == 0 {
    } else {
        let l = ls[0];
        let st = step(a, l);
        lemma_scan_bound(st.acc, ls.skip(1));
        if l.len() > 0 && l[0] == '[' {
            if !is_submodule_header(l) {
                assert(header_acc(l) == acc_invalid());
            }
        } else {
            reveal_strlit("[submodule");
            if is_submodule_header(l) {
                assert(l.take("[submodule"@.len() as int)[0] == l[0]);
            }
        }
    }
}

/// A parse yields at most one record per `[submodule` section header in
/// the manifest: every record was finalized at a header boundary with a
/// pending name, and only a header line can set one.
pub proof fn lemma_records_at_most_headers(t: Seq<char>)
    ensures
        parse_text_spec(t).len() <= submodule_header_count(t),
{
    let ls = tidy_lines(lines_spec(t));
    lemma_scan_bound(acc_init(), ls);
}

/// Parsing is a function of the text alone: equal manifests parse to
/// equal record sequences, in the same order.
pub proof fn lemma_parse_deterministic(t1: Seq<char>, t2: Seq<char>)
    requires
        t1 == t2,
    ensures
        parse_text_spec(t1) == parse_text_spec(t2),
{
}

/// Text without a single `[submodule` header — the empty text among it —
/// parses to the empty record sequence, never to an error.
pub proof fn lemma_no_headers_no_records(t: Seq<char>)
    requires
        submodule_header_count(t) == 0,
    ensures
        parse_text_spec(t) == Seq::<SubmoduleView>::empty(),
{
    lemma_records_at_most_headers(t);
    assert(parse_text_spec(t) =~= Seq::<SubmoduleView>::empty());
}

/// No line of `ls` opens a section.
pub open spec fn non_bracket_lines(ls: Seq<Seq<char>>) -> bool {
    forall|i: int| 0 <= i < ls.len() ==> !(ls[i].len() > 0 && ls[i][0] == '[')
}

/// Inside an entry marked invalid, every line up to the next section
/// header is skipped whole: nothing is emitted and nothing accumulates.
pub proof fn lemma_invalid_skips(ks: Seq<Seq<char>>)
    requires
        non_bracket_lines(ks),
    ensures
        scan_from(acc_invalid(), ks) == (ScanResult {
            acc: acc_invalid(),
            recs: Seq::<SubmoduleView>::empty(),
        }),
    decreases ks.len(),
{
    if ks.len() == 0 {
    } else {
        assert(step(acc_invalid(), ks[0]).acc == acc_invalid());
        lemma_invalid_skips(ks.skip(1));
        assert(scan_from(acc_invalid(), ks).recs =~= Seq::<SubmoduleView>::empty());
    }
}

/// A bracket line that leaves the new entry marked invalid.
pub open spec fn invalidating_header(l: Seq<char>) -> bool {
    l.len() > 0 && l[0] == '[' && header_acc(l) == acc_invalid()
}

/// An invalid entry is inert: scanning its bracket line and the key lines
/// under it emits only the finalization of the entry before it, and hands
/// the next entry a clean, invalid accumulator — no key value leaks out.
pub proof fn lemma_invalid_entry_inert(a: AccView, h: Seq<char>, ks: Seq<Seq<char>>)
    requires
        invalidating_header(h),
        non_bracket_lines(ks),
    ensures
        scan_from(a, seq![h] + ks).acc == acc_invalid(),
        scan_from(a, seq![h] + ks).recs == if !a.invalid {
            opt_rec_seq(finalize(a))
        } else {
            Seq::<SubmoduleView>::empty()
        },
{
    let ls = seq![h] + ks;
    assert(ls[0] == h);
    assert(ls.skip(1) =~= ks);
    lemma_invalid_skips(ks);
    if !a.invalid {
        assert(scan_from(a, ls).recs =~= opt_rec_seq(finalize(a)));
    } else {
        assert(scan_from(a, ls).recs =~= Seq::<SubmoduleView>::empty());
    }
}

/// A `[submodule` header whose first quote is followed at once by the
/// second — a quoted empty name — marks its entry invalid, so that entry
/// yields no record, whatever key lines follow it.
pub proof fn lemma_empty_name_header_invalidates(h: Seq<char>)
    requires
        is_submodule_header(h),
        find_idx(h, '"') < h.len(),
        find_idx(h, '"') + 1 < h.len() ==> h[find_idx(h, '"') + 1] == '"',
    ensures
        invalidating_header(h),
{
    reveal_strlit("[submodule");
    assert(h.take("[submodule"@.len() as int)[0] == h[0]);
    crate::text::lemma_find_idx(h, '"');
    let fq = find_idx(h, '"');
    let rest = h.skip(fq + 1);
    if rest.len() > 0 {
        assert(rest[0] == h[fq + 1]);
        assert(find_idx(rest, '"') == 0);
    }
}

/// Accumulators that cannot finalize and cannot be told apart by what
/// follows: equal, or both fresh of name and valid.
pub open spec fn pre_header_like(s: AccView, t: AccView) -> bool {
    s == t || (s.name is None && t.name is None && !s.invalid && !t.invalid)
}

/// Two pre-header-like accumulators emit the same records on any line
/// sequence, and stay pre-header-like: key values gathered before a
/// header can never surface in a record.
pub proof fn lemma_scan_bisim(s: AccView, t: AccView, ls: Seq<Seq<char>>)
    requires
        pre_header_like(s, t),
    ensures
        scan_from(s, ls).recs == scan_from(t, ls).recs,
        pre_header_like(scan_from(s, ls).acc, scan_from(t, ls).acc),
    decreases ls.len(),
{
    if ls.len() == 0 {
    } else {
        let l = ls[0];
        lemma_scan_bisim(step(s, l).acc, step(t, l).acc, ls.skip(1));
    }
}

/// Scanning only non-bracket lines from a fresh accumulator emits nothing
/// and pends no name: key lines cannot finalize an entry on their own.
pub proof fn lemma_keys_alone_emit_nothing(a: AccView, ls: Seq<Seq<char>>)
    requires
        a.name is None,
        !a.invalid,
        non_bracket_lines(ls),
    ensures
        scan_from(a, ls).recs == Seq::<SubmoduleView>::empty(),
        scan_from(a, ls).acc.name is None,
        !scan_from(a, ls).acc.invalid,
    decreases ls.len(),
{
    if ls.len() == 0 {
    } else {
        lemma_keys_alone_emit_nothing(step(a, ls[0]).acc, ls.skip(1));
        assert(scan_from(a, ls).recs =~= Seq::<SubmoduleView>::empty());
    }
}

/// Tidying distributes over concatenation of line sequences.
pub proof fn lemma_tidy_concat(x: Seq<Seq<char>>, y: Seq<Seq<char>>)
    ensures
        tidy_lines(x + y) == tidy_lines(x) + tidy_lines(y),
    decreases x.len(),
{
    if x.len() == 0 {
        assert(x + y =~= y);
        assert(tidy_lines(x) + tidy_lines(y) =~= tidy_lines(y));
    } else {
        assert((x + y)[0] == x[0]);
        assert((x + y).skip(1) =~= x.skip(1) + y);
        lemma_tidy_concat(x.skip(1), y);
        assert(tidy_lines(x + y) =~= tidy_lines(x) + tidy_lines(y));
    }
}

/// A scan over concatenated line sequences is the scan of the first,
/// continued over the second.
pub proof fn lemma_scan_concat(a: AccView, x: Seq<Seq<char>>, y: Seq<Seq<char>>)
    ensures
        scan_from(a, x + y).acc == scan_from(scan_from(a, x).acc, y).acc,
        scan_from(a, x + y).recs == scan_from(a, x).recs + scan_from(scan_from(a, x).acc, y).recs,
    decreases x.len(),
{
    if x.len() == 0 {
        assert(x + y =~= y);
        assert(scan_from(a, x).recs + scan_from(a, y).recs =~= scan_from(a, y).recs);
    } else {
        assert((x + y)[0] == x[0]);
        assert((x + y).skip(1) =~= x.skip(1) + y);
        lemma_scan_concat(step(a, x[0]).acc, x.skip(1), y);
        assert(scan_from(a, x + y).recs =~= scan_from(a, x).recs + scan_from(
            scan_from(a, x).acc,
            y,
        ).recs);
    }
}

/// Key lines standing before the first section header are ignored: text
/// whose trimmed lines never open a section may be prepended, at a line
/// boundary, to any manifest without changing what that manifest parses
/// to.
pub proof fn lemma_leading_keys_ignored(pre: Seq<char>, rest: Seq<char>)
    requires
        pre.len() == 0 || pre[pre.len() - 1] == '\n',
        non_bracket_lines(tidy_lines(lines_spec(pre))),
    ensures
        parse_text_spec(pre + rest) == parse_text_spec(rest),
{
    crate::text::lemma_lines_concat(pre, rest);
    lemma_tidy_concat(lines_spec(pre), lines_spec(rest));
    let px = tidy_lines(lines_spec(pre));
    let rx = tidy_lines(lines_spec(rest));
    lemma_scan_concat(acc_init(), px, rx);
    lemma_keys_alone_emit_nothing(acc_init(), px);
    let s = scan_from(acc_init(), px).acc;
    lemma_scan_bisim(s, acc_init(), rx);
    assert(parse_text_spec(pre + rest) =~= parse_text_spec(rest));
}

/// Any name the accumulator pends is non-empty.
pub open spec fn acc_name_nonempty(a: AccView) -> bool {
    a.name is Some ==> a.name->0.len() > 0
}

proof fn lemma_scan_names(a: AccView, ls: Seq<Seq<char>>)
    requires
        acc_name_nonempty(a),
    ensures
        acc_name_nonempty(scan_from(a, ls).acc),
        forall|i: int|
            0 <= i < scan_from(a, ls).recs.len() ==> scan_from(a, ls).recs[i].name.len() > 0,
    decreases ls.len(),
{
    if ls.len() > 0 {
        let l = ls[0];
        let st = step(a, l);
        if l.len() > 0 && l[0] == '[' {
            crate::text::lemma_find_idx(l, '"');
            let fq = find_idx(l, '"');
            if fq < l.len() {
                crate::text::lemma_find_idx(l.skip(fq + 1), '"');
            }
        }
        assert(acc_name_nonempty(st.acc));
        lemma_scan_names(st.acc, ls.skip(1));
    }
}

/// A record is only ever finalized with the name taken from a header's
/// quotes, and an empty quoted name marks its entry invalid: every record
/// a parse yields carries a non-empty name.
pub proof fn lemma_record_names_nonempty(t: Seq<char>)
    ensures
        forall|i: int|
            0 <= i < parse_text_spec(t).len() ==> parse_text_spec(t)[i].name.len() > 0,
{
    let ls = tidy_lines(lines_spec(t));
    lemma_scan_names(acc_init(), ls);
}

/// The header line of an entry named `n`.
pub open spec fn header_text(n: Seq<char>) -> Seq<char> {
    "[submodule \""@ + n + "\"]"@
}

proof fn lemma_header_line(n: Seq<char>)
    requires
        n.len() > 0,
        forall|j: int| 0 <= j < n.len() ==> n[j] != '"' && n[j] != '\n',
    ensures
        ({
            let h = header_text(n);
            &&& h.len() == n.len() + 14
            &&& h[0] == '['
            &&& !is_ws_char(h[0])
            &&& h[h.len() - 1] == ']'
            &&& !is_ws_char(h[h.len() - 1])
            &&& forall|j: int| 0 <= j < h.len() ==> h[j] != '\n'
            &&& is_submodule_header(h)
            &&& header_acc(h) == (AccView {
                name: Some(n),
                path: None,
                url: None,
                branch: None,
                invalid: false,
            })
        }),
{
    reveal_strlit("[submodule \"");
    reveal_strlit("\"]");
    reveal_strlit("[submodule");
    let a = "[submodule \""@;
    let b = "\"]"@;
    let h = header_text(n);
    assert(h.len() == n.len() + 14);
    assert forall|j: int| 0 <= j < h.len() implies h[j] != '\n' by {
        if j < 12 {
            assert(h[j] == a[j]);
        } else if j < 12 + n.len() {
            assert(h[j] == n[j - 12]);
        } else {
            assert(h[j] == b[j - 12 - n.len()]);
        }
    }
    assert(h.take("[submodule"@.len() as int) =~= "[submodule"@);
    assert forall|j: int| 0 <= j < 11 implies h[j] != '"' by {
        assert(h[j] == a[j]);
    }
    assert(h[11] == a[11]);
    crate::text::lemma_find_idx_exact(h, '"', 11);
    let rest = h.skip(12);
    assert(rest =~= n + b);
    assert forall|j: int| 0 <= j < n.len() implies rest[j] != '"' by {
        assert(rest[j] == n[j]);
    }
    assert(rest[n.len() as int] == b[0]);
    crate::text::lemma_find_idx_exact(rest, '"', n.len() as int);
    assert(h.subrange(12, 12 + n.len() as int) =~= n);
}

proof fn lemma_key_line_shape(pre: Seq<char>, v: Seq<char>)
    requires
        pre.len() > 0,
        !is_ws_char(pre[0]),
        forall|j: int| 0 <= j < pre.len() ==> pre[j] != '\n',
        v.len() > 0,
        !is_ws_char(v[0]),
        !is_ws_char(v[v.len() - 1]),
        forall|j: int| 0 <= j < v.len() ==> v[j] != '\n',
    ensures
        ({
            let l = pre + v;
            &&& l.len() == pre.len() + v.len()
            &&& l[0] == pre[0]
            &&& l[l.len() - 1] == v[v.len() - 1]
            &&& starts_with(l, pre)
            &&& l.skip(pre.len() as int) == v
            &&& trim_spec(l) == l
            &&& trim_spec(v) == v
            &&& forall|j: int| 0 <= j < l.len() ==> l[j] != '\n'
        }),
{
    let l = pre + v;
    assert(l.take(pre.len() as int) =~= pre);
    assert(l.skip(pre.len() as int) =~= v);
    crate::text::lemma_trim_noop(l);
    crate::text::lemma_trim_noop(v);
    assert forall|j: int| 0 <= j < l.len() implies l[j] != '\n' by {
        if j < pre.len() {
            assert(l[j] == pre[j]);
        } else {
            assert(l[j] == v[j - pre.len()]);
        }
    }
}

/// A value fit for one key line: non-blank, trimmed at both ends, on one
/// line.
pub open spec fn key_value(v: Seq<char>) -> bool {
    &&& v.len() > 0
    &&& !is_ws_char(v[0])
    &&& !is_ws_char(v[v.len() - 1])
    &&& forall|j: int| 0 <= j < v.len() ==> v[j] != '\n'
}

/// A name fit for a header line: non-empty, unquoted, on one line.
pub open spec fn entry_name(n: Seq<char>) -> bool {
    &&& n.len() > 0
    &&& forall|j: int| 0 <= j < n.len() ==> n[j] != '"' && n[j] != '\n'
}

/// The text of one whole manifest entry: a header naming `n`, a path key
/// line and a url key line, with no branch.
pub open spec fn entry_text(n: Seq<char>, p: Seq<char>, u: Seq<char>) -> Seq<char> {
    header_text(n).push('\n') + ("path = "@ + p).push('\n') + ("url = "@ + u)
}

/// A `[submodule "n"]` entry followed by `path = p` and `url = u` parses
/// to exactly one record: name `n`, path `p`, url `u` and no branch.
pub proof fn lemma_single_entry(n: Seq<char>, p: Seq<char>, u: Seq<char>)
    requires
        entry_name(n),
        key_value(p),
        key_value(u),
    ensures
        parse_text_spec(entry_text(n, p, u)) == seq![
            SubmoduleView { name: n, path: p, url: u, branch: None },
        ],
{
    reveal_strlit("path = ");
    reveal_strlit("url = ");
    let h = header_text(n);
    let l2 = "path = "@ + p;
    let l3 = "url = "@ + u;
    lemma_header_line(n);
    lemma_key_line_shape("path = "@, p);
    lemma_key_line_shape("url = "@, u);
    let x1 = h.push('\n');
    let x2 = l2.push('\n');
    assert(entry_text(n, p, u) =~= x1 + (x2 + l3));
    crate::text::lemma_lines_concat(x1, x2 + l3);
    crate::text::lemma_lines_concat(x2, l3);
    crate::text::lemma_lines_single(h);
    crate::text::lemma_lines_single(l2);
    crate::text::lemma_lines_unterminated(l3);
    let ls = lines_spec(entry_text(n, p, u));
    let e = Seq::<Seq<char>>::empty();
    assert(ls =~= e.push(h).push(l2).push(l3));
    crate::text::lemma_trim_noop(h);
    crate::parse::lemma_tidy_snoc(e, h);
    assert(tidy_lines(e) == Seq::<Seq<char>>::empty());
    crate::parse::lemma_tidy_snoc(e.push(h), l2);
    crate::parse::lemma_tidy_snoc(e.push(h).push(l2), l3);
    assert(tidy_lines(ls) == e.push(h).push(l2).push(l3));
    crate::parse::lemma_scan_from_snoc(acc_init(), e, h);
    assert(scan_from(acc_init(), e) == (ScanResult {
        acc: acc_init(),
        recs: Seq::<SubmoduleView>::empty(),
    }));
    let a1 = scan_from(acc_init(), e.push(h)).acc;
    assert(a1 == header_acc(h));
    crate::parse::lemma_scan_from_snoc(acc_init(), e.push(h), l2);
    let a2 = scan_from(acc_init(), e.push(h).push(l2)).acc;
    assert(l2[0] != '[');
    assert(a2 == step(a1, l2).acc);
    crate::parse::lemma_scan_from_snoc(acc_init(), e.push(h).push(l2), l3);
    let a3 = scan_from(acc_init(), tidy_lines(ls)).acc;
    assert(!starts_with(l3, "path = "@)) by {
        if starts_with(l3, "path = "@) {
            assert(l3.take("path = "@.len() as int)[0] == l3[0]);
        }
    }
    assert(a3 == step(a2, l3).acc);
    assert(scan_from(acc_init(), tidy_lines(ls)).recs =~= Seq::<SubmoduleView>::empty());
    assert(finalize(a3) == Some(SubmoduleView { name: n, path: p, url: u, branch: None }));
    assert(parse_text_spec(entry_text(n, p, u)) =~= seq![
        SubmoduleView { name: n, path: p, url: u, branch: None },
    ]);
}

/// The text of one manifest entry whose url key is written twice.
pub open spec fn entry_text_two_urls(
    n: Seq<char>,
    ua: Seq<char>,
    ub: Seq<char>,
    p: Seq<char>,
) -> Seq<char> {
    header_text(n).push('\n') + ("url = "@ + ua).push('\n') + ("url = "@ + ub).push('\n') + (
    "path = "@ + p)
}

/// Within one entry the last occurrence of a repeated key wins: `url = ua`
/// followed by `url = ub` yields a record whose url is `ub`.
pub proof fn lemma_repeated_key_last_wins(n: Seq<char>, ua: Seq<char>, ub: Seq<char>, p: Seq<char>)
    requires
        entry_name(n),
        key_value(ua),
        key_value(ub),
        key_value(p),
    ensures
        parse_text_spec(entry_text_two_urls(n, ua, ub, p)) == seq![
            SubmoduleView { name: n, path: p, url: ub, branch: None },
        ],
{
    reveal_strlit("path = ");
    reveal_strlit("url = ");
    let h = header_text(n);
    let l2 = "url = "@ + ua;
    let l3 = "url = "@ + ub;
    let l4 = "path = "@ + p;
    lemma_header_line(n);
    lemma_key_line_shape("url = "@, ua);
    lemma_key_line_shape("url = "@, ub);
    lemma_key_line_shape("path = "@, p);
    let x1 = h.push('\n');
    let x2 = l2.push('\n');
    let x3 = l3.push('\n');
    assert(entry_text_two_urls(n, ua, ub, p) =~= x1 + (x2 + (x3 + l4)));
    crate::text::lemma_lines_concat(x1, x2 + (x3 + l4));
    crate::text::lemma_lines_concat(x2, x3 + l4);
    crate::text::lemma_lines_concat(x3, l4);
    crate::text::lemma_lines_single(h);
    crate::text::lemma_lines_single(l2);
    crate::text::lemma_lines_single(l3);
    crate::text::lemma_lines_unterminated(l4);
    let ls = lines_spec(entry_text_two_urls(n, ua, ub, p));
    let e = Seq::<Seq<char>>::empty();
    assert(ls =~= e.push(h).push(l2).push(l3).push(l4));
    crate::text::lemma_trim_noop(h);
    crate::parse::lemma_tidy_snoc(e, h);
    assert(tidy_lines(e) == Seq::<Seq<char>>::empty());
    crate::parse::lemma_tidy_snoc(e.push(h), l2);
    crate::parse::lemma_tidy_snoc(e.push(h).push(l2), l3);
    crate::parse::lemma_tidy_snoc(e.push(h).push(l2).push(l3), l4);
    assert(tidy_lines(ls) == e.push(h).push(l2).push(l3).push(l4));
    crate::parse::lemma_scan_from_snoc(acc_init(), e, h);
    assert(scan_from(acc_init(), e) == (ScanResult {
        acc: acc_init(),
        recs: Seq::<SubmoduleView>::empty(),
    }));
    let a1 = scan_from(acc_init(), e.push(h)).acc;
    assert(a1 == header_acc(h));
    assert(!starts_with(l2, "path = "@)) by {
        if starts_with(l2, "path = "@) {
            assert(l2.take("path = "@.len() as int)[0] == l2[0]);
        }
    }
    assert(!starts_with(l3, "path = "@)) by {
        if starts_with(l3, "path = "@) {
            assert(l3.take("path = "@.len() as int)[0] == l3[0]);
        }
    }
    crate::parse::lemma_scan_from_snoc(acc_init(), e.push(h), l2);
    let a2 = scan_from(acc_init(), e.push(h).push(l2)).acc;
    assert(a2 == step(a1, l2).acc);
    crate::parse::lemma_scan_from_snoc(acc_init(), e.push(h).push(l2), l3);
    let a3 = scan_from(acc_init(), e.push(h).push(l2).push(l3)).acc;
    assert(a3 == step(a2, l3).acc);
    assert(a3.url == Some(ub));
    crate::parse::lemma_scan_from_snoc(acc_init(), e.push(h).push(l2).push(l3), l4);
    let a4 = scan_from(acc_init(), tidy_lines(ls)).acc;
    assert(a4 == step(a3, l4).acc);
    assert(scan_from(acc_init(), tidy_lines(ls)).recs =~= Seq::<SubmoduleView>::empty());
    assert(finalize(a4) == Some(SubmoduleView { name: n, path: p, url: ub, branch: None }));
    assert(parse_text_spec(entry_text_two_urls(n, ua, ub, p)) =~= seq![
        SubmoduleView { name: n, path: p, url: ub, branch: None },
    ]);
}

} // verus!
