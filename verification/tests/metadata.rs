//! `DESCRIPTION` and `NAMESPACE` facts.

use semantics::description::{
    parse_description_collate, parse_description_dependencies, parse_description_package,
};

#[test]
fn description_dependencies_parse_dcf_fields() {
    let dependencies = parse_description_dependencies(
        "Package: demo\nDepends:\n    R (>= 4.0),\n    data.table (>= 1.14)\nImports: dplyr,\n    rlang (>= 1.0)\nSuggests: testthat\nTitle: A demo\n",
    );
    let names: Vec<&str> = dependencies.iter().map(String::as_str).collect();
    assert_eq!(names, ["data.table", "dplyr", "rlang", "testthat"]);
}

#[test]
fn description_without_dependency_fields_is_empty() {
    let dependencies =
        parse_description_dependencies("Package: demo\nTitle: Imports: not-a-field\n");
    assert!(dependencies.is_empty());
}

#[test]
fn collate_preserves_declared_order() {
    let collate = parse_description_collate(
        "Package: demo\nCollate:\n    'zzz.R'\n    \"aaa.R\"\n    mmm.R\nTitle: demo\n",
    );
    assert_eq!(collate, ["zzz.R", "aaa.R", "mmm.R"]);
}

#[test]
fn collate_unix_applies_only_without_plain_collate() {
    let unix_only = parse_description_collate("Collate.unix: 'b.R' 'a.R'\n");
    assert_eq!(unix_only, ["b.R", "a.R"]);
    let both = parse_description_collate("Collate: 'x.R'\nCollate.unix: 'y.R'\n");
    assert_eq!(both, ["x.R"]);
}

#[test]
fn the_package_field_names_the_package() {
    assert_eq!(
        parse_description_package("Package: demo\r\nTitle: x\r\n"),
        Some("demo".to_string())
    );
    assert_eq!(parse_description_package("Package:\n"), None);
    assert_eq!(parse_description_package("Title: x\n"), None);
}

#[test]
fn a_plain_collate_that_lists_nothing_still_counts() {
    let collate = parse_description_collate("Collate:\nCollate.unix: 'y.R'\n");
    assert!(collate.is_empty());
}

#[test]
fn dependencies_of_two_files_are_those_of_both() {
    let first = "Package: demo\nImports: dplyr,\n    rlang\n";
    let second = "Suggests: testthat, dplyr\nTitle: A demo\n";
    let together = parse_description_dependencies(&format!("{first}{second}"));
    assert_eq!(together, ["dplyr", "rlang", "testthat"]);
    assert_eq!(parse_description_dependencies(first), ["dplyr", "rlang"]);
    assert_eq!(parse_description_dependencies(second), ["dplyr", "testthat"]);
    // A second file that opens with a continuation line adds to the first.
    let continued = parse_description_dependencies(&format!("{first}  , testthat\n"));
    assert_eq!(continued, ["dplyr", "rlang", "testthat"]);
    assert!(parse_description_dependencies("  , testthat\n").is_empty());
}
