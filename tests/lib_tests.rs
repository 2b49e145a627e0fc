use mdbook_template::{replace_template, replace_template_with_diagnostics, Diagnostic};
use mdbook_template::utils::TestFileReader;

fn reader(files: &[(&str, &str)]) -> TestFileReader {
    TestFileReader::from(
        files
            .iter()
            .map(|(k, v)| (k.to_string(), v.to_string()))
            .collect::<Vec<_>>(),
    )
}

#[test]
fn test_happy_path_escaped() {
    let start = r"
        Example Text
        ```hbs
        \{{#template template.md}} << an escaped link!
        ```";
    let end = r"
        Example Text
        ```hbs
        {{#template template.md}} << an escaped link!
        ```";

    assert_eq!(
        replace_template(start, &TestFileReader::default(), "", "", 0),
        end
    );
}

#[test]
fn test_happy_path_simple() {
    let start_chapter_content = "{{#template footer.md}}";
    let end_chapter_content = "Designed & Created With Love From - Goudham & Hazel";
    let file_reader = &reader(&[(
        "footer.md",
        "Designed & Created With Love From - Goudham & Hazel",
    )]);

    let actual_chapter_content = replace_template(start_chapter_content, file_reader, "", "", 0);

    assert_eq!(actual_chapter_content, end_chapter_content);
}

#[test]
fn test_happy_path_with_args() {
    let start_chapter_content = "{{#template footer.md authors=Goudham & Hazel}}";
    let end_chapter_content = "Designed & Created With Love From - Goudham & Hazel";
    let file_reader = &reader(&[(
        "footer.md",
        "Designed & Created With Love From - [[#authors]]",
    )]);

    let actual_chapter_content = replace_template(start_chapter_content, file_reader, "", "", 0);

    assert_eq!(actual_chapter_content, end_chapter_content);
}

#[test]
fn test_happy_path_new_lines() {
    let start_chapter_content = r"
        Some content...
        {{#template footer.md authors=Goudham & Hazel}}";
    let end_chapter_content = r"
        Some content...
        - - - -
        Designed & Created With Love From Goudham & Hazel";
    let file_reader = &reader(&[(
        "footer.md",
        r"- - - -
        Designed & Created With Love From [[#authors]]",
    )]);

    let actual_chapter_content = replace_template(start_chapter_content, file_reader, "", "", 0);

    assert_eq!(actual_chapter_content, end_chapter_content);
}

#[test]
fn test_happy_path_multiple() {
    let start_chapter_content = r"
        {{#template header.md title=Example Title}}
        Some content...
        {{#template
            footer.md
        authors=Goudham & Hazel}}";
    let end_chapter_content = r"
        # Example Title
        Some content...
        - - - -
        Designed & Created With Love From Goudham & Hazel";
    let file_reader = &reader(&[
        (
            "footer.md",
            r"- - - -
        Designed & Created With Love From [[#authors]]",
        ),
        ("header.md", r"# [[#title]]"),
    ]);

    let actual_chapter_content = replace_template(start_chapter_content, file_reader, "", "", 0);

    assert_eq!(actual_chapter_content, end_chapter_content);
}

#[test]
fn test_happy_path_with_default_values() {
    let start_chapter_content = "{{#template footer.md}}";
    let end_chapter_content = "Designed By - Goudham";
    let file_reader = &reader(&[("footer.md", "Designed By - [[#authors Goudham]]")]);

    let actual_chapter_content = replace_template(start_chapter_content, file_reader, "", "", 0);

    assert_eq!(actual_chapter_content, end_chapter_content);
}

#[test]
fn test_happy_path_with_overridden_default_values() {
    let start_chapter_content = "{{#template footer.md authors=Hazel}}";
    let end_chapter_content = "Designed By - Hazel";
    let file_reader = &reader(&[("footer.md", "Designed By - [[#authors Goudham]]")]);

    let actual_chapter_content = replace_template(start_chapter_content, file_reader, "", "", 0);

    assert_eq!(actual_chapter_content, end_chapter_content);
}

#[test]
fn test_happy_path_nested() {
    let start_chapter_content = r"
        {{#template header.md title=Example Title}}
        Some content...";
    let end_chapter_content = r"
        # Example Title
        <img src='example.png' alt='Example Title'>
        Some content...";
    let file_reader = &reader(&[
        ("image.md", r"<img src='example.png' alt='[[#title]]'>"),
        (
            "header.md",
            r"# [[#title]]
        {{#template image.md title=[[#title]]}}",
        ),
    ]);

    let actual_chapter_content = replace_template(start_chapter_content, file_reader, "", "", 0);

    assert_eq!(actual_chapter_content, end_chapter_content);
}

#[test]
fn test_sad_path_invalid_file() {
    env_logger::init_from_env(env_logger::Env::default().default_filter_or("info"));

    let start_chapter_content = "{{#template footer.md}}";

    let actual_chapter_content =
        replace_template(start_chapter_content, &TestFileReader::default(), "", "", 0);

    assert_eq!(actual_chapter_content, start_chapter_content);
}

#[test]
fn escaped_invocation_reads_no_file() {
    let file_reader = &reader(&[("x.md", "SHOULD NOT APPEAR")]);
    assert_eq!(
        replace_template(r"\{{#template x.md}}", file_reader, "", "", 0),
        "{{#template x.md}}"
    );
}

#[test]
fn plain_substitution() {
    let file_reader = &reader(&[("footer.md", "Hello [[#name]]")]);
    assert_eq!(
        replace_template("{{#template footer.md name=World}}", file_reader, "", "", 0),
        "Hello World"
    );
}

#[test]
fn default_fallback_and_override() {
    let file_reader = &reader(&[("footer.md", "By [[#author Anonymous]]")]);
    assert_eq!(
        replace_template("{{#template footer.md}}", file_reader, "", "", 0),
        "By Anonymous"
    );
    assert_eq!(
        replace_template("{{#template footer.md author=Ada}}", file_reader, "", "", 0),
        "By Ada"
    );
}

#[test]
fn value_with_equals_signs_reaches_the_placeholder() {
    let file_reader = &reader(&[("t.md", "[[#expr]]")]);
    assert_eq!(
        replace_template("{{#template t.md expr=2+2=4}}", file_reader, "", "", 0),
        "2+2=4"
    );
}

#[test]
fn unresolvable_file_leaves_marker_and_surroundings() {
    let file_reader = &reader(&[("footer.md", "F")]);
    let doc = "before {{#template missing.md}} middle {{#template footer.md}} after";
    assert_eq!(
        replace_template(doc, file_reader, "", "", 0),
        "before {{#template missing.md}} middle F after"
    );
}

#[test]
fn nested_file_resolves_relative_to_its_directory() {
    let file_reader = &reader(&[
        ("parts/header.md", "# [[#title]] {{#template image.md title=[[#title]]}}"),
        ("parts/image.md", "<img alt='[[#title]]'>"),
        ("image.md", "WRONG DIRECTORY"),
    ]);
    assert_eq!(
        replace_template("{{#template parts/header.md title=Hi}}", file_reader, "", "", 0),
        "# Hi <img alt='Hi'>"
    );
}

#[test]
fn base_directory_is_joined_to_the_path() {
    let file_reader = &reader(&[("book/src/footer.md", "joined"), ("footer.md", "not joined")]);
    assert_eq!(
        replace_template("{{#template footer.md}}", file_reader, "book/src", "", 0),
        "joined"
    );
}

#[test]
fn self_inclusion_stops_at_the_depth_bound() {
    let file_reader = &reader(&[("a.md", "x{{#template a.md}}")]);
    assert_eq!(
        replace_template("{{#template a.md}}", file_reader, "", "", 0),
        "xxxxxxxxxx"
    );
    assert_eq!(
        replace_template("{{#template a.md}}", file_reader, "", "", 10),
        ""
    );
}

#[test]
fn text_between_invocations_is_kept_in_order() {
    let file_reader = &reader(&[("a.md", "A"), ("b.md", "B")]);
    let doc = "1 {{#template a.md}} 2 \\{{#x}} 3 {{#template b.md}} 4 {{#template";
    assert_eq!(
        replace_template(doc, file_reader, "", "", 0),
        "1 A 2 {{#x}} 3 B 4 {{#template"
    );
}

#[test]
fn empty_document_expands_to_nothing() {
    assert_eq!(
        replace_template("", &TestFileReader::default(), "", "", 0),
        ""
    );
}

#[test]
fn later_duplicate_argument_wins() {
    let file_reader = &reader(&[("t.md", "[[#a]]")]);
    assert_eq!(
        replace_template("{{#template t.md a=1 a=2}}", file_reader, "", "", 0),
        "2"
    );
}

#[test]
fn later_duplicate_file_wins_in_memory_reader() {
    let file_reader = &reader(&[("t.md", "first"), ("t.md", "second")]);
    assert_eq!(
        replace_template("{{#template t.md}}", file_reader, "", "", 0),
        "second"
    );
}

#[test]
fn template_name_and_renderer() {
    let t = mdbook_template::Template::new();
    assert_eq!(t.name(), "template");
    assert!(t.supports_renderer("html"));
    assert!(!t.supports_renderer("markdown"));
}

#[test]
fn path_without_parent_is_its_own_directory() {
    let file_reader = &reader(&[("/", "{{#template x.md}}"), ("/x.md", "X")]);
    assert_eq!(
        replace_template("{{#template /}}", file_reader, "", "", 0),
        "X"
    );
}

#[test]
fn non_ascii_text_around_invocations_is_kept() {
    let file_reader = &reader(&[("a.md", "Ä [[#v]]")]);
    assert_eq!(
        replace_template("é {{#template a.md v=ü}} 日本", file_reader, "", "", 0),
        "é Ä ü 日本"
    );
}

#[test]
fn diagnostics_name_unreadable_files() {
    let (out, problems) = replace_template_with_diagnostics(
        "a {{#template missing.md}} b",
        &TestFileReader::default(),
        "dir",
        0,
    );
    assert_eq!(out, "a {{#template missing.md}} b");
    assert_eq!(problems.len(), 1);
    match &problems[0] {
        Diagnostic::FileReadFailure {
            file, link_text, message,
        } => {
            assert_eq!(file, "dir/missing.md");
            assert_eq!(link_text, "{{#template missing.md}}");
            assert!(message.contains("{{#template missing.md}}"));
        }
        other => panic!("unexpected {:?}", other),
    }
}

#[test]
fn diagnostics_report_the_depth_bound_once() {
    let file_reader = &reader(&[("a.md", "x{{#template a.md}}")]);
    let (out, problems) = replace_template_with_diagnostics("{{#template a.md}}", file_reader, "", 0);
    assert_eq!(out, "xxxxxxxxxx");
    assert_eq!(
        problems,
        vec![Diagnostic::DepthExceeded {
            file: "a.md".to_string(),
            link_text: "{{#template a.md}}".to_string(),
        }]
    );
}

#[test]
fn no_diagnostics_for_a_clean_expansion() {
    let file_reader = &reader(&[("a.md", "A")]);
    let (out, problems) =
        replace_template_with_diagnostics("{{#template a.md}} \\{{#template b.md}}", file_reader, "", 0);
    assert_eq!(out, "A {{#template b.md}}");
    assert!(problems.is_empty());
}
