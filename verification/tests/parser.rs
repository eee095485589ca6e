use gitmodule_surfer::MissingFields;
use gitmodule_surfer::Submodule;
use gitmodule_surfer::parse_gitmodules;

fn rec(name: &str, path: &str, url: &str, branch: Option<&str>) -> Submodule {
    Submodule {
        name: name.to_string(),
        path: path.to_string(),
        url: url.to_string(),
        branch: branch.map(|b| b.to_string()),
    }
}

#[test]
fn gitmodule_it_parses_gitmodules_correctly() {
    let text = r#"[submodule "src/doc/nomicon"]
	path = src/doc/nomicon
	url = https://github.com/rust-lang/nomicon.git
[submodule "src/tools/cargo"]
	path = src/tools/cargo
	url = https://github.com/rust-lang/cargo.git
[submodule "src/doc/reference"]
	path = src/doc/reference
	url = https://github.com/rust-lang/reference.git
[submodule "src/doc/book"]
	path = src/doc/book
	url = https://github.com/rust-lang/book.git
[submodule "src/doc/rust-by-example"]
	path = src/doc/rust-by-example
	url = https://github.com/rust-lang/rust-by-example.git
[submodule "library/stdarch"]
	path = library/stdarch
	url = https://github.com/rust-lang/stdarch.git
[submodule "src/doc/rustc-dev-guide"]
	path = src/doc/rustc-dev-guide
	url = https://github.com/rust-lang/rustc-dev-guide.git
[submodule "src/doc/edition-guide"]
	path = src/doc/edition-guide
	url = https://github.com/rust-lang/edition-guide.git
[submodule "src/llvm-project"]
	path = src/llvm-project
	url = https://github.com/rust-lang/llvm-project.git
	branch = rustc/19.1-2024-09-17
[submodule "src/doc/embedded-book"]
	path = src/doc/embedded-book
	url = https://github.com/rust-embedded/book.git
[submodule "library/backtrace"]
	path = library/backtrace
	url = https://github.com/rust-lang/backtrace-rs.git
[submodule "src/tools/rustc-perf"]
	path = src/tools/rustc-perf
	url = https://github.com/rust-lang/rustc-perf.git
[submodule "src/tools/enzyme"]
	path = src/tools/enzyme
	url = https://github.com/EnzymeAD/Enzyme.git
[submodule "src/gcc"]
	path = src/gcc
	url = https://github.com/rust-lang/gcc.git
"#;
    let gitmodules = parse_gitmodules(text);
    let expected = vec![
        rec(
            "src/doc/nomicon",
            "src/doc/nomicon",
            "https://github.com/rust-lang/nomicon.git",
            None,
        ),
        rec(
            "src/tools/cargo",
            "src/tools/cargo",
            "https://github.com/rust-lang/cargo.git",
            None,
        ),
        rec(
            "src/doc/reference",
            "src/doc/reference",
            "https://github.com/rust-lang/reference.git",
            None,
        ),
        rec(
            "src/doc/book",
            "src/doc/book",
            "https://github.com/rust-lang/book.git",
            None,
        ),
        rec(
            "src/doc/rust-by-example",
            "src/doc/rust-by-example",
            "https://github.com/rust-lang/rust-by-example.git",
            None,
        ),
        rec(
            "library/stdarch",
            "library/stdarch",
            "https://github.com/rust-lang/stdarch.git",
            None,
        ),
        rec(
            "src/doc/rustc-dev-guide",
            "src/doc/rustc-dev-guide",
            "https://github.com/rust-lang/rustc-dev-guide.git",
            None,
        ),
        rec(
            "src/doc/edition-guide",
            "src/doc/edition-guide",
            "https://github.com/rust-lang/edition-guide.git",
            None,
        ),
        rec(
            "src/llvm-project",
            "src/llvm-project",
            "https://github.com/rust-lang/llvm-project.git",
            Some("rustc/19.1-2024-09-17"),
        ),
        rec(
            "src/doc/embedded-book",
            "src/doc/embedded-book",
            "https://github.com/rust-embedded/book.git",
            None,
        ),
        rec(
            "library/backtrace",
            "library/backtrace",
            "https://github.com/rust-lang/backtrace-rs.git",
            None,
        ),
        rec(
            "src/tools/rustc-perf",
            "src/tools/rustc-perf",
            "https://github.com/rust-lang/rustc-perf.git",
            None,
        ),
        rec(
            "src/tools/enzyme",
            "src/tools/enzyme",
            "https://github.com/EnzymeAD/Enzyme.git",
            None,
        ),
        rec(
            "src/gcc",
            "src/gcc",
            "https://github.com/rust-lang/gcc.git",
            None,
        ),
    ];

    assert_eq!(gitmodules.len(), expected.len());
    for (parsed, expected) in gitmodules.iter().zip(expected.iter()) {
        assert_eq!(*parsed, *expected);
    }
}

#[test]
fn single_entry_yields_one_record() {
    let text = "[submodule \"X\"]\npath = p\nurl = u\n";
    assert_eq!(parse_gitmodules(text), vec![rec("X", "p", "u", None)]);
}

#[test]
fn records_never_outnumber_headers() {
    // three headers, one of them unfinishable: at most three records
    let text = "[submodule \"a\"]\npath = p\nurl = u\n[submodule \"b\"]\nurl = u2\n[submodule \"c\"]\npath = q\nurl = w\n";
    let parsed = parse_gitmodules(text);
    assert!(parsed.len() <= 3);
    assert_eq!(
        parsed,
        vec![rec("a", "p", "u", None), rec("c", "q", "w", None)]
    );
}

#[test]
fn empty_quoted_name_yields_no_record() {
    let text = "[submodule \"\"]\npath = p\nurl = u\n";
    assert_eq!(parse_gitmodules(text), vec![]);
}

#[test]
fn keys_before_first_header_are_ignored() {
    let text = "path = stray\nurl = stray\n[submodule \"a\"]\npath = p\nurl = u\n";
    assert_eq!(parse_gitmodules(text), vec![rec("a", "p", "u", None)]);
}

#[test]
fn repeated_url_last_wins() {
    let text = "[submodule \"a\"]\nurl = first\nurl = second\npath = p\n";
    assert_eq!(parse_gitmodules(text), vec![rec("a", "p", "second", None)]);
}

#[test]
fn foreign_section_produces_nothing_and_leaks_nothing() {
    // [core]'s path must not become entry "a"'s path
    let text = "[core]\npath = leaked\n[submodule \"a\"]\nurl = u\npath = p\n";
    assert_eq!(parse_gitmodules(text), vec![rec("a", "p", "u", None)]);
    // without a path of its own, "a" must yield nothing at all
    let text2 = "[core]\npath = leaked\n[submodule \"a\"]\nurl = u\n";
    assert_eq!(parse_gitmodules(text2), vec![]);
}

#[test]
fn parsing_twice_is_identical() {
    let text = "[submodule \"a\"]\npath = p\nurl = u\nbranch = b\n[submodule \"b\"]\npath = q\nurl = w\n";
    let once = parse_gitmodules(text);
    let twice = parse_gitmodules(text);
    assert_eq!(once, twice);
}

#[test]
fn empty_and_invalid_texts_yield_empty() {
    assert_eq!(parse_gitmodules(""), vec![]);
    assert_eq!(parse_gitmodules("\n\n  \n"), vec![]);
    assert_eq!(parse_gitmodules("no headers here\njust = keys\n"), vec![]);
    assert_eq!(parse_gitmodules("[core]\npath = p\nurl = u\n"), vec![]);
}

#[test]
fn header_without_quotes_is_invalid() {
    let text = "[submodule x]\npath = p\nurl = u\n";
    assert_eq!(parse_gitmodules(text), vec![]);
    let text2 = "[submodule \"x]\npath = p\nurl = u\n";
    assert_eq!(parse_gitmodules(text2), vec![]);
}

#[test]
fn text_after_second_quote_is_ignored() {
    let text = "[submodule \"x\" trailing note]\npath = p\nurl = u\n";
    assert_eq!(parse_gitmodules(text), vec![rec("x", "p", "u", None)]);
}

#[test]
fn trailing_entry_is_finalized_without_a_closing_header() {
    let text = "[submodule \"last\"]\npath = p\nurl = u";
    assert_eq!(parse_gitmodules(text), vec![rec("last", "p", "u", None)]);
}

#[test]
fn trailing_invalid_entry_stays_dropped() {
    let text = "[submodule \"a\"]\npath = p\nurl = u\n[core]\npath = x";
    assert_eq!(parse_gitmodules(text), vec![rec("a", "p", "u", None)]);
}

#[test]
fn crlf_and_blank_lines_and_unknown_keys() {
    let text = "\r\n[submodule \"a\"]\r\n\r\n\tpath = p\r\n\tshallow = true\r\n\turl = u\r\n";
    assert_eq!(parse_gitmodules(text), vec![rec("a", "p", "u", None)]);
}

#[test]
fn key_values_are_trimmed_and_branch_kept() {
    let text = "[submodule \"a\"]\npath =   p  \nurl =  u\nbranch =  b \n";
    assert_eq!(parse_gitmodules(text), vec![rec("a", "p", "u", Some("b"))]);
}

#[test]
fn try_new_requires_all_three_fields() {
    let ok = Submodule::try_new(
        &Some("n".to_string()),
        &Some("p".to_string()),
        &Some("u".to_string()),
        &None,
    );
    assert_eq!(ok, Ok(rec("n", "p", "u", None)));

    let err = Submodule::try_new(&None, &Some("p".to_string()), &None, &None);
    assert_eq!(
        err,
        Err(MissingFields {
            name: true,
            path: false,
            url: true,
        })
    );

    let err2 = Submodule::try_new(
        &Some("n".to_string()),
        &None,
        &Some("u".to_string()),
        &Some("b".to_string()),
    );
    assert_eq!(
        err2,
        Err(MissingFields {
            name: false,
            path: true,
            url: false,
        })
    );
}
