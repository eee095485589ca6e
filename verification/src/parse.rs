//! The manifest parser: a single forward pass over trimmed, non-blank
//! lines, keeping a pending-entry accumulator that a bracket line both
//! finalizes and resets. Malformed entries are marked invalid and dropped;
//! the parse itself never fails.

use vstd::prelude::*;
use vstd::string::StrSliceExecFns;

use crate::submodule::Submodule;
use crate::submodule::SubmoduleView;
use crate::submodule::opt_string_view;
use crate::text::find_idx;
use crate::text::find_in_str;
use crate::text::lines_spec;
use crate::text::split_lines;
use crate::text::starts_with;
use crate::text::starts_with_str;
use crate::text::str_views;
use crate::text::trim_spec;
use crate::text::trim_str;

verus! {

/// The parser's working memory: the pending fields of the entry being
/// scanned, and whether that entry has been marked invalid.
pub ghost struct AccView {
    pub name: Option<Seq<char>>,
    pub path: Option<Seq<char>>,
    pub url: Option<Seq<char>>,
    pub branch: Option<Seq<char>>,
    pub invalid: bool,
}

/// The accumulator at the start of a parse and right after each reset.
pub open spec fn acc_init() -> AccView {
    AccView { name: None, path: None, url: None, branch: None, invalid: false }
}

/// The accumulator of an entry that has been marked invalid.
pub open spec fn acc_invalid() -> AccView {
    AccView { name: None, path: None, url: None, branch: None, invalid: true }
}

/// Finalization: a record exactly when name, path and url are all pending;
/// the branch is carried over as-is.
pub open spec fn finalize(a: AccView) -> Option<SubmoduleView> {
    if a.name is Some && a.path is Some && a.url is Some {
        Some(
            SubmoduleView { name: a.name->0, path: a.path->0, url: a.url->0, branch: a.branch },
        )
    } else {
        None
    }
}

/// What a bracket line makes of the entry it opens: the quoted name taken
/// strictly between the first two double quotes of a `[submodule` line, or
/// the invalid marker when the line opens some other section, a quote is
/// missing, or the quoted name is empty.
pub open spec fn header_acc(line: Seq<char>) -> AccView {
    if !starts_with(line, "[submodule"@) {
        acc_invalid()
    } else {
        let fq = find_idx(line, '"');
        if fq == line.len() {
            acc_invalid()
        } else {
            let sq = find_idx(line.skip(fq + 1), '"');
            if sq == line.skip(fq + 1).len() {
                acc_invalid()
            } else if sq == 0 {
                acc_invalid()
            } else {
                AccView {
                    name: Some(line.subrange(fq + 1, fq + 1 + sq)),
                    path: None,
                    url: None,
                    branch: None,
                    invalid: false,
                }
            }
        }
    }
}

/// One step's outcome: the next accumulator, and the record emitted at an
/// entry boundary, if any.
pub ghost struct StepResult {
    pub acc: AccView,
    pub emit: Option<SubmoduleView>,
}

/// One step of the state machine on a trimmed, non-blank line. A bracket
/// line finalizes the previous entry (unless marked invalid) and opens a
/// new one; inside an invalid entry every other line is skipped; a
/// recognized key line overwrites its pending field (last write wins); any
/// other line is ignored.
pub open spec fn step(a: AccView, line: Seq<char>) -> StepResult {
    if line.len() > 0 && line[0] == '[' {
        StepResult {
            acc: header_acc(line),
            emit: if !a.invalid {
                finalize(a)
            } else {
                None
            },
        }
    } else if a.invalid {
        StepResult { acc: a, emit: None }
    } else if starts_with(line, "path = "@) {
        StepResult {
            acc: AccView {
                name: a.name,
                path: Some(trim_spec(line.skip("path = "@.len() as int))),
                url: a.url,
                branch: a.branch,
                invalid: false,
            },
            emit: None,
        }
    } else if starts_with(line, "url = "@) {
        StepResult {
            acc: AccView {
                name: a.name,
                path: a.path,
                url: Some(trim_spec(line.skip("url = "@.len() as int))),
                branch: a.branch,
                invalid: false,
            },
            emit: None,
        }
    } else if starts_with(line, "branch = "@) {
        StepResult {
            acc: AccView {
                name: a.name,
                path: a.path,
                url: a.url,
                branch: Some(trim_spec(line.skip("branch = "@.len() as int))),
                invalid: false,
            },
            emit: None,
        }
    } else {
        StepResult { acc: a, emit: None }
    }
}

/// The record a step emits, as a sequence to append.
pub open spec fn opt_rec_seq(em: Option<SubmoduleView>) -> Seq<SubmoduleView> {
    match em {
        Some(r) => seq![r],
        None => Seq::empty(),
    }
}

/// The outcome of a whole scan: the final accumulator and the records
/// emitted along the way, in entry order.
pub ghost struct ScanResult {
    pub acc: AccView,
    pub recs: Seq<SubmoduleView>,
}

/// The state machine run from accumulator `a` over a sequence of trimmed,
/// non-blank lines.
pub open spec fn scan_from(a: AccView, lines: Seq<Seq<char>>) -> ScanResult
    decreases lines.len(),
{
    if lines.len() == 0 {
        ScanResult { acc: a, recs: Seq::empty() }
    } else {
        let st = step(a, lines[0]);
        let rest = scan_from(st.acc, lines.skip(1));
        ScanResult { acc: rest.acc, recs: opt_rec_seq(st.emit) + rest.recs }
    }
}

/// Extending a scan by one line steps the final accumulator once and
/// appends that step's emission.
pub proof fn lemma_scan_from_snoc(a: AccView, ls: Seq<Seq<char>>, l: Seq<char>)
    ensures
        scan_from(a, ls.push(l)).acc == step(scan_from(a, ls).acc, l).acc,
        scan_from(a, ls.push(l)).recs == scan_from(a, ls).recs + opt_rec_seq(
            step(scan_from(a, ls).acc, l).emit,
        ),
    decreases ls.len(),
{
    if ls.len() == 0 {
        assert(ls.push(l)[0] == l);
        assert(ls.push(l).skip(1) =~= Seq::<Seq<char>>::empty());
        assert(scan_from(step(a, l).acc, Seq::<Seq<char>>::empty()) == (ScanResult {
            acc: step(a, l).acc,
            recs: Seq::<SubmoduleView>::empty(),
        }));
        assert(scan_from(a, ls.push(l)).recs =~= scan_from(a, ls).recs + opt_rec_seq(
            step(a, l).emit,
        ));
    } else {
        assert(ls.push(l)[0] == ls[0]);
        assert(ls.push(l).skip(1) =~= ls.skip(1).push(l));
        lemma_scan_from_snoc(step(a, ls[0]).acc, ls.skip(1), l);
        assert(scan_from(a, ls.push(l)).recs =~= scan_from(a, ls).recs + opt_rec_seq(
            step(scan_from(a, ls).acc, l).emit,
        ));
    }
}

/// The trimmed, non-blank lines of a line sequence, in order.
pub open spec fn tidy_lines(ls: Seq<Seq<char>>) -> Seq<Seq<char>>
    decreases ls.len(),
{
    if ls.len() == 0 {
        Seq::empty()
    } else {
        let t = trim_spec(ls[0]);
        let rest = tidy_lines(ls.skip(1));
        if t.len() > 0 {
            seq![t] + rest
        } else {
            rest
        }
    }
}

/// Tidying one more line keeps it exactly when its trim is non-blank.
pub proof fn lemma_tidy_snoc(ls: Seq<Seq<char>>, l: Seq<char>)
    ensures
        tidy_lines(ls.push(l)) == if trim_spec(l).len() > 0 {
            tidy_lines(ls).push(trim_spec(l))
        } else {
            tidy_lines(ls)
        },
    decreases ls.len(),
{
    if ls.len() == 0 {
        assert(ls.push(l)[0] == l);
        assert(ls.push(l).skip(1) =~= Seq::<Seq<char>>::empty());
        assert(tidy_lines(Seq::<Seq<char>>::empty()) == Seq::<Seq<char>>::empty());
        if trim_spec(l).len() > 0 {
            assert(tidy_lines(ls.push(l)) =~= tidy_lines(ls).push(trim_spec(l)));
        }
    } else {
        assert(ls.push(l)[0] == ls[0]);
        assert(ls.push(l).skip(1) =~= ls.skip(1).push(l));
        lemma_tidy_snoc(ls.skip(1), l);
        if trim_spec(ls[0]).len() > 0 {
            if trim_spec(l).len() > 0 {
                assert(tidy_lines(ls.push(l)) =~= tidy_lines(ls).push(trim_spec(l)));
            }
        }
    }
}

/// The records of a full parse of a line sequence: the scan from the fresh
/// accumulator, then one unconditional final finalization attempt for the
/// trailing entry.
pub open spec fn parse_lines_spec(lines: Seq<Seq<char>>) -> Seq<SubmoduleView> {
    let r = scan_from(acc_init(), lines);
    r.recs + opt_rec_seq(finalize(r.acc))
}

/// The records of a full parse of manifest text: its lines, trimmed and
/// with blank lines dropped, run through the state machine.
pub open spec fn parse_text_spec(t: Seq<char>) -> Seq<SubmoduleView> {
    parse_lines_spec(tidy_lines(lines_spec(t)))
}

/// The views of a record vector.
pub open spec fn subs_view(v: Seq<Submodule>) -> Seq<SubmoduleView> {
    v.map_values(|m: Submodule| m@)
}

/// The accumulator view of the parser's executable working state.
pub open spec fn acc_of(
    name: Option<String>,
    path: Option<String>,
    url: Option<String>,
    branch: Option<String>,
    invalid: bool,
) -> AccView {
    AccView {
        name: opt_string_view(name),
        path: opt_string_view(path),
        url: opt_string_view(url),
        branch: opt_string_view(branch),
        invalid: invalid,
    }
}

/// Parses manifest text into the ordered sequence of its well-formed
/// submodule records. Total on every input: malformed or partial entries
/// are dropped, never reported, and a manifest with no valid entry yields
/// an empty vector.
pub fn parse_gitmodules(contents: &str) -> (r: Vec<Submodule>)
    ensures
        subs_view(r@) == parse_text_spec(contents@),
{
    let raw_lines = split_lines(contents);
    let ghost rls = str_views(raw_lines@);
    let mut lines: Vec<&str> = Vec::new();
    let mut k: usize = 0;
    proof {
        assert(rls.take(0) =~= Seq::<Seq<char>>::empty());
    }
    while k < raw_lines.len()
        invariant
            0 <= k <= raw_lines@.len(),
            rls == str_views(raw_lines@),
            str_views(lines@) == tidy_lines(rls.take(k as int)),
        decreases raw_lines@.len() - k,
    {
        let t = trim_str(raw_lines[k]);
        proof {
            assert(rls[k as int] == raw_lines@[k as int]@);
        }
        let ghost prev = lines@;
        if t.unicode_len() > 0 {
            lines.push(t);
            proof {
                assert(str_views(lines@) =~= str_views(prev).push(t@));
            }
        }
        proof {
            lemma_tidy_snoc(rls.take(k as int), rls[k as int]);
            assert(rls.take(k as int).push(rls[k as int]) =~= rls.take(k as int + 1));
        }
        k += 1;
    }
    proof {
        assert(rls.take(raw_lines@.len() as int) =~= rls);
    }
    let mut out: Vec<Submodule> = Vec::new();
    let mut cur_name: Option<String> = None;
    let mut cur_path: Option<String> = None;
    let mut cur_url: Option<String> = None;
    let mut cur_branch: Option<String> = None;
    let mut is_invalid: bool = false;
    let mut i: usize = 0;
    proof {
        assert(str_views(lines@).take(0) =~= Seq::<Seq<char>>::empty());
    }
    while i < lines.len()
        invariant
            0 <= i <= lines@.len(),
            scan_from(acc_init(), str_views(lines@).take(i as int)).acc == acc_of(
                cur_name,
                cur_path,
                cur_url,
                cur_branch,
                is_invalid,
            ),
            subs_view(out@) == scan_from(acc_init(), str_views(lines@).take(i as int)).recs,
        decreases lines@.len() - i,
    {
        let ghost tls = str_views(lines@);
        let ghost acc0 = acc_of(cur_name, cur_path, cur_url, cur_branch, is_invalid);
        let line: &str = lines[i];
        proof {
            assert(tls[i as int] == line@);
        }
        let n = line.unicode_len();
        if n > 0 && line.get_char(0) == '[' {
            if !is_invalid {
                let ghost prev = out@;
                match Submodule::try_new(&cur_name, &cur_path, &cur_url, &cur_branch) {
                    Ok(m) => {
                        out.push(m);
                        proof {
                            assert(subs_view(out@) =~= subs_view(prev).push(m@));
                            assert(subs_view(out@) =~= subs_view(prev) + opt_rec_seq(
                                step(acc0, line@).emit,
                            ));
                        }
                    },
                    Err(_) => {
                        proof {
                            assert(subs_view(out@) =~= subs_view(prev) + opt_rec_seq(
                                step(acc0, line@).emit,
                            ));
                        }
                    },
                }
            } else {
                proof {
                    assert(subs_view(out@) =~= subs_view(out@) + opt_rec_seq(
                        step(acc0, line@).emit,
                    ));
                }
            }
            is_invalid = false;
            cur_name = None;
            cur_path = None;
            cur_url = None;
            cur_branch = None;
            if !starts_with_str(line, "[submodule") {
                is_invalid = true;
            } else {
                match find_in_str(line, '"') {
                    None => {
                        is_invalid = true;
                    },
                    Some(fq) => {
                        let tail = line.substring_char(fq + 1, n);
                        proof {
                            assert(tail@ =~= line@.skip(fq as int + 1));
                        }
                        match find_in_str(tail, '"') {
                            None => {
                                is_invalid = true;
                            },
                            Some(sq) => {
                                if sq == 0 {
                                    is_invalid = true;
                                } else {
                                    let nm = line.substring_char(fq + 1, fq + 1 + sq);
                                    cur_name = Some(nm.to_owned());
                                }
                            },
                        }
                    },
                }
            }
            proof {
                assert(acc_of(cur_name, cur_path, cur_url, cur_branch, is_invalid) == header_acc(
                    line@,
                ));
            }
        } else if is_invalid {
            proof {
                assert(subs_view(out@) =~= subs_view(out@) + opt_rec_seq(step(acc0, line@).emit));
            }
        } else if starts_with_str(line, "path = ") {
            proof {
                reveal_strlit("path = ");
            }
            let rest = line.substring_char(7, n);
            proof {
                assert(rest@ =~= line@.skip("path = "@.len() as int));
            }
            cur_path = Some(trim_str(rest).to_owned());
            proof {
                assert(subs_view(out@) =~= subs_view(out@) + opt_rec_seq(step(acc0, line@).emit));
            }
        } else if starts_with_str(line, "url = ") {
            proof {
                reveal_strlit("url = ");
            }
            let rest = line.substring_char(6, n);
            proof {
                assert(rest@ =~= line@.skip("url = "@.len() as int));
            }
            cur_url = Some(trim_str(rest).to_owned());
            proof {
                assert(subs_view(out@) =~= subs_view(out@) + opt_rec_seq(step(acc0, line@).emit));
            }
        } else if starts_with_str(line, "branch = ") {
            proof {
                reveal_strlit("branch = ");
            }
            let rest = line.substring_char(9, n);
            proof {
                assert(rest@ =~= line@.skip("branch = "@.len() as int));
            }
            cur_branch = Some(trim_str(rest).to_owned());
            proof {
                assert(subs_view(out@) =~= subs_view(out@) + opt_rec_seq(step(acc0, line@).emit));
            }
        } else {
            proof {
                assert(subs_view(out@) =~= subs_view(out@) + opt_rec_seq(step(acc0, line@).emit));
            }
        }
        proof {
            lemma_scan_from_snoc(acc_init(), tls.take(i as int), tls[i as int]);
            assert(tls.take(i as int).push(tls[i as int]) =~= tls.take(i as int + 1));
            assert(acc_of(cur_name, cur_path, cur_url, cur_branch, is_invalid) == step(
                acc0,
                line@,
            ).acc);
        }
        i += 1;
    }
    let ghost tls = str_views(lines@);
    proof {
        assert(tls.take(lines@.len() as int) =~= tls);
    }
    let ghost prev = out@;
    match Submodule::try_new(&cur_name, &cur_path, &cur_url, &cur_branch) {
        Ok(m) => {
            out.push(m);
            proof {
                assert(subs_view(out@) =~= subs_view(prev).push(m@));
                assert(subs_view(out@) =~= subs_view(prev) + opt_rec_seq(
                    finalize(scan_from(acc_init(), tls).acc),
                ));
            }
        },
        Err(_) => {
            proof {
                assert(subs_view(out@) =~= subs_view(prev) + opt_rec_seq(
                    finalize(scan_from(acc_init(), tls).acc),
                ));
            }
        },
    }
    out
}

} // verus!
