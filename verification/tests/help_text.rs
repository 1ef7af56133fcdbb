use mkhelp::doc::Target;
use mkhelp::Document;

#[test]
fn output_is_correct_for_this_project() {
    let makefile = "## Verbs\n\
                    ## =====\n\
                    \n\
                    ## Print help message\n\
                    help:\n\
                    \techo help\n\
                    \n\
                    ## Checks\n\
                    ## ======\n\
                    \n\
                    ## Run all checks\n\
                    check_all: check_format check_lint\n\
                    \n\
                    ## _\n\
                    check_format:\n\
                    \tcargo fmt --check\n\
                    \n\
                    ## _\n\
                    check_lint:\n\
                    \tcargo clippy\n\
                    \n\
                    ## Check that documentation can be built\n\
                    check_docs:\n\
                    \tcargo doc\n\
                    \n\
                    ## Check that unit tests pass\n\
                    check_tests:\n\
                    \tcargo test\n\
                    \n\
                    ## Fixes\n\
                    ## =====\n\
                    \n\
                    ## _\n\
                    fix_format:\n\
                    \tcargo fmt\n\
                    \n\
                    ## _\n\
                    fix_lint:\n\
                    \tcargo clippy --fix\n";
    let expected = "Verbs:\n \
                    help: Print help message\n\
                    \n\
                    Checks:\n    \
                    check_all: Run all checks\n \
                    check_format: Check format\n   \
                    check_lint: Check lint\n   \
                    check_docs: Check that documentation can be built\n  \
                    check_tests: Check that unit tests pass\n\
                    \n\
                    Fixes:\n \
                    fix_format: Fix format\n   \
                    fix_lint: Fix lint\n";
    let doc = Document::from_str(makefile);
    assert_eq!(doc.help(), expected);
}

#[test]
fn end_to_end_two_modules() {
    let src = "## Verbs\n\
               ## =====\n\
               \n\
               ## Print help message\n\
               help:\n\
               \n\
               ## Checks\n\
               ## ======\n\
               \n\
               ## _\n\
               check_all:\n";
    let doc = Document::from_str(src);
    assert_eq!(doc.modules.len(), 2);
    assert_eq!(doc.modules[0].name, "Verbs");
    assert_eq!(doc.modules[0].targets.len(), 1);
    assert_eq!(doc.modules[0].targets[0].name, "help");
    assert_eq!(doc.modules[0].targets[0].summary, "Print help message");
    assert_eq!(doc.modules[1].name, "Checks");
    assert_eq!(doc.modules[1].targets.len(), 1);
    assert_eq!(doc.modules[1].targets[0].name, "check_all");
    assert_eq!(doc.modules[1].targets[0].summary, "Check all");
    assert_eq!(
        doc.help(),
        "Verbs:\n help: Print help message\n\nChecks:\n check_all: Check all\n"
    );
}

#[test]
fn input_without_doc_lines_is_empty() {
    let src = "all: build test\nbuild:\n\tcargo build\n# plain comment\n\ntest:\n";
    let doc = Document::from_str(src);
    assert_eq!(doc.modules.len(), 0);
    assert_eq!(doc.help(), "");
}

#[test]
fn empty_input_is_empty() {
    let doc = Document::from_str("");
    assert_eq!(doc.modules.len(), 0);
    assert_eq!(doc.help(), "");
}

#[test]
fn names_align_on_longest_name() {
    let src = "## M\n\
               ## =\n\
               \n\
               ## A\n\
               a:\n\
               \n\
               ## B\n\
               bb:\n\
               \n\
               ## C\n\
               ccc:\n";
    let doc = Document::from_str(src);
    assert_eq!(doc.help(), "M:\n   a: A\n  bb: B\n ccc: C\n");
}

#[test]
fn summary_marker_synthesizes_from_name() {
    let src = "## Fixes\n\
               ## =====\n\
               \n\
               ## _\n\
               fix_lint:\n";
    let doc = Document::from_str(src);
    assert_eq!(doc.modules[0].targets[0].summary, "Fix lint");
    assert_eq!(doc.help(), "Fixes:\n fix_lint: Fix lint\n");
}

#[test]
fn leading_underscore_name_synthesizes_with_space() {
    let src = "## M\n\
               ## =\n\
               \n\
               ## _\n\
               _hidden:\n";
    let doc = Document::from_str(src);
    assert_eq!(doc.modules[0].targets[0].summary, " hidden");
}

#[test]
fn title_case_uppercases_first_character_only() {
    assert_eq!(Target::title_case("fix_lint"), "Fix_lint");
    assert_eq!(Target::title_case("aBC"), "ABC");
    assert_eq!(Target::title_case("9lives"), "9lives");
    assert_eq!(Target::title_case(""), "");
}

#[test]
fn module_without_targets_prints_nothing() {
    let src = "## Empty\n\
               ## =====\n\
               \n\
               plain_line_without_colon\n";
    let doc = Document::from_str(src);
    assert_eq!(doc.modules.len(), 1);
    assert_eq!(doc.modules[0].name, "Empty");
    assert_eq!(doc.modules[0].targets.len(), 0);
    assert_eq!(doc.help(), "");
}

#[test]
fn empty_module_does_not_suppress_later_modules() {
    let src = "## Empty\n\
               ## =====\n\
               \n\
               nothing here\n\
               \n\
               ## Full\n\
               ## ====\n\
               \n\
               ## Works\n\
               go:\n";
    let doc = Document::from_str(src);
    assert_eq!(doc.help(), "Full:\n go: Works\n");
}

#[test]
fn blocks_follow_source_order() {
    let src = "## Zmod\n\
               ## ====\n\
               \n\
               ## s1\n\
               tb:\n\
               \n\
               ## Sub\n\
               ## ---\n\
               \n\
               ## s2\n\
               tc:\n\
               \n\
               ## Amod\n\
               ## ====\n\
               \n\
               ## s3\n\
               ta:\n";
    let doc = Document::from_str(src);
    assert_eq!(
        doc.help(),
        "Zmod:\n tb: s1\n\nSub:\n tc: s2\n\nAmod:\n ta: s3\n"
    );
}

#[test]
fn submodule_renders_even_when_module_is_bare() {
    let src = "## Top\n\
               ## ===\n\
               \n\
               ## Sub\n\
               ## ---\n\
               \n\
               ## x\n\
               run:\n";
    let doc = Document::from_str(src);
    assert_eq!(doc.modules.len(), 1);
    assert_eq!(doc.modules[0].targets.len(), 0);
    assert_eq!(doc.modules[0].submodules.len(), 1);
    assert_eq!(doc.modules[0].submodules[0].name, "Sub");
    assert_eq!(doc.help(), "Sub:\n run: x\n");
}

#[test]
fn mismatched_underline_is_not_a_heading() {
    let src = "## Name\n\
               ## ==\n\
               \n\
               ## s\n\
               t:\n";
    let doc = Document::from_str(src);
    assert_eq!(doc.modules.len(), 0);
    assert_eq!(doc.help(), "");
}

#[test]
fn bare_marker_line_cannot_start_a_heading() {
    let src = "##\n\
               ## Name\n\
               ## ====\n\
               \n\
               ## s\n\
               t:\n";
    let doc = Document::from_str(src);
    assert_eq!(doc.modules.len(), 0);
    assert_eq!(doc.help(), "");
}

#[test]
fn orphan_summary_is_discarded() {
    let src = "## M\n\
               ## =\n\
               \n\
               ## orphan summary\n\
               no colon here\n";
    let doc = Document::from_str(src);
    assert_eq!(doc.modules.len(), 1);
    assert_eq!(doc.modules[0].targets.len(), 0);
    assert_eq!(doc.help(), "");
}

#[test]
fn rule_line_with_leading_colon_names_no_target() {
    let src = "## M\n\
               ## =\n\
               \n\
               ## s\n\
               : oddity\n";
    let doc = Document::from_str(src);
    assert_eq!(doc.modules.len(), 1);
    assert_eq!(doc.modules[0].targets.len(), 0);
    assert_eq!(doc.help(), "");
}

#[test]
fn crlf_line_endings_parse_like_plain_newlines() {
    let src = "## M\r\n\
               ## =\r\n\
               \r\n\
               ## s\r\n\
               t:\r\n";
    let doc = Document::from_str(src);
    assert_eq!(doc.modules.len(), 1);
    assert_eq!(doc.help(), "M:\n t: s\n");
}

#[test]
fn target_name_stops_at_first_colon() {
    let src = "## M\n\
               ## =\n\
               \n\
               ## s\n\
               build: dep1 dep2: extra\n";
    let doc = Document::from_str(src);
    assert_eq!(doc.modules[0].targets[0].name, "build");
}
