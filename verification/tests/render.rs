use gitmodule_surfer::Submodule;

fn sample(name: &str, url: &str, branch: Option<&str>) -> Submodule {
    Submodule {
        name: name.to_string(),
        path: "/".to_string(),
        url: url.to_string(),
        branch: branch.map(|b| b.to_string()),
    }
}

#[test]
fn it_renders_submodules_correctly() {
    let sample1 = sample("NameWithoutSlashes", "www.example.com", None);
    assert_eq!(sample1.display_fmt("%n"), "NameWithoutSlashes");
    assert_eq!(sample1.display_fmt("%N"), "NameWithoutSlashes");
    assert_eq!(sample1.display_fmt("%p"), "/");
    assert_eq!(sample1.display_fmt("%u"), "www.example.com");
    assert_eq!(sample1.display_fmt("%b"), "");
    assert_eq!(sample1.display_fmt("%n (%b)"), "NameWithoutSlashes ()");

    let sample2 = sample(
        "Name/With/Slashes",
        "../../somethingfunky.git",
        Some("my-feature-branch"),
    );
    assert_eq!(sample2.display_fmt("%n"), "Slashes");
    assert_eq!(sample2.display_fmt("%N"), "Name/With/Slashes");
    assert_eq!(sample2.display_fmt("%p"), "/");
    assert_eq!(sample2.display_fmt("%u"), "../../somethingfunky.git");
    assert_eq!(sample2.display_fmt("%b"), "my-feature-branch");
    assert_eq!(sample2.display_fmt("%n (%b)"), "Slashes (my-feature-branch)");
}

#[test]
fn basename_of_slashed_name() {
    let m = sample("a/b/c", "u", None);
    assert_eq!(m.display_fmt_with("%n", '/'), "c");
    assert_eq!(m.display_fmt_with("%N", '/'), "a/b/c");
}

#[test]
fn missing_branch_renders_empty() {
    let m = sample("X", "u", None);
    assert_eq!(m.display_fmt_with("%b", '/'), "");
    assert_eq!(m.display_fmt_with("%n (%b)", '/'), "X ()");
}

#[test]
fn explicit_separator_backslash() {
    let m = sample("dir\\leaf", "u", None);
    assert_eq!(m.display_fmt_with("%n", '\\'), "leaf");
    assert_eq!(m.display_fmt_with("%n", '/'), "dir\\leaf");
}

#[test]
fn name_ending_in_separator_has_empty_basename() {
    let m = sample("trailing/", "u", None);
    assert_eq!(m.display_fmt_with("%n", '/'), "");
}

#[test]
fn substitution_is_blind_to_surrounding_text() {
    let m = Submodule {
        name: "n".to_string(),
        path: "the/path".to_string(),
        url: "the-url".to_string(),
        branch: Some("b1".to_string()),
    };
    assert_eq!(
        m.display_fmt_with("%N %p %u %b", '/'),
        "n the/path the-url b1"
    );
    // a literal %n elsewhere in the template is replaced too
    assert_eq!(m.display_fmt_with("100%n", '/'), "100n");
}
