use std::collections::HashMap;

use mdbook_template::args::{extract_args, Args, ArgsType};
use mdbook_template::links::{extract_template_links, Link, LinkType};

fn args_map(link: &Link) -> HashMap<String, String> {
    link.arg_strings().into_iter().collect()
}

fn check_links(res: &[Link], expected: &[(usize, usize, &str, &str, &[(&str, &str)])]) {
    assert_eq!(res.len(), expected.len());
    for (link, (start, end, path, text, args)) in res.iter().zip(expected.iter()) {
        assert_eq!(link.start_index, *start);
        assert_eq!(link.end_index, *end);
        assert_eq!(link.link_type, LinkType::Template(path.to_string()));
        assert_eq!(link.link_text, *text);
        let want: HashMap<String, String> = args
            .iter()
            .map(|(k, v)| (k.to_string(), v.to_string()))
            .collect();
        assert_eq!(args_map(link), want);
    }
}

fn pairs(args: &[(&str, &str)]) -> Vec<(String, String)> {
    args.iter()
        .map(|(k, v)| (k.to_string(), v.to_string()))
        .collect()
}

fn arg(start: usize, end: usize, args_type: ArgsType, text: &str) -> Args {
    Args {
        start_index: start,
        end_index: end,
        args_type,
        args_text: text.to_string(),
    }
}

#[test]
fn test_extract_zero_template_links() {
    let s = "This is some text without any template links";
    assert_eq!(extract_template_links(s), vec![])
}

#[test]
fn test_extract_template_links_partial_match() {
    let s = "Some random text with {{#template...";
    assert_eq!(extract_template_links(s), vec![]);
    let s = "Some random text with {{#template footer.md...";
    assert_eq!(extract_template_links(s), vec![]);
    let s = "Some random text with {{#template footer.md path=../images...";
    assert_eq!(extract_template_links(s), vec![]);
    let s = "Some random text with \\{{#template...";
    assert_eq!(extract_template_links(s), vec![]);
}

#[test]
fn test_extract_template_links_empty() {
    let s = "Some random text with {{}} {{#}}...";
    assert_eq!(extract_template_links(s), vec![]);
}

#[test]
fn test_extract_template_links_unknown() {
    let s = "Some random text with {{#templatee file.rs}} and {{#include}} {{#playground}} {{#tempate}}...";
    assert!(extract_template_links(s) == vec![]);
}

#[test]
fn test_extract_zero_template_links_without_args() {
    let s = "{{#template templates/footer.md}}";
    let res = extract_template_links(s);
    check_links(
        &res,
        &[(0, 33, "templates/footer.md", "{{#template templates/footer.md}}", &[])],
    );
}

#[test]
fn test_extract_template_links_simple() {
    let s = "Some random text with {{#template file.rs}} and {{#template test.rs lang=rust}}...";
    let res = extract_template_links(s);
    check_links(
        &res,
        &[
            (22, 43, "file.rs", "{{#template file.rs}}", &[]),
            (
                48,
                79,
                "test.rs",
                "{{#template test.rs lang=rust}}",
                &[("lang", "rust")],
            ),
        ],
    );
}

#[test]
fn test_extract_template_links_simple_with_equals_sign() {
    let s = "Some random text with{{#template test.rs lang=rust math=2+2=4}}...";
    let res = extract_template_links(s);
    check_links(
        &res,
        &[(
            21,
            63,
            "test.rs",
            "{{#template test.rs lang=rust math=2+2=4}}",
            &[("lang", "rust"), ("math", "2+2=4")],
        )],
    );
}

#[test]
fn test_extract_template_links_simple_with_whitespace() {
    let s = "Some random text with {{#template test.rs lang=rust authors=Goudham & Hazel}}...";
    let res = extract_template_links(s);
    check_links(
        &res,
        &[(
            22,
            77,
            "test.rs",
            "{{#template test.rs lang=rust authors=Goudham & Hazel}}",
            &[("lang", "rust"), ("authors", "Goudham & Hazel")],
        )],
    );
}

#[test]
fn test_extract_template_links_simple_with_tabs() {
    let s = "Some random text with {{#template      test.rs      lang=rust authors=Goudham & Hazel}}...";
    let res = extract_template_links(s);
    check_links(
        &res,
        &[(
            22,
            87,
            "test.rs",
            "{{#template      test.rs      lang=rust authors=Goudham & Hazel}}",
            &[("lang", "rust"), ("authors", "Goudham & Hazel")],
        )],
    );
}

#[test]
fn test_extract_template_links_with_special_characters() {
    let s = "Some random text with {{#template foo-bar\\-baz/_c++.'.rs path=images}}...";
    let res = extract_template_links(s);
    check_links(
        &res,
        &[(
            22,
            70,
            "foo-bar\\-baz/_c++.'.rs",
            "{{#template foo-bar\\-baz/_c++.'.rs path=images}}",
            &[("path", "images")],
        )],
    );
}

#[test]
fn test_extract_template_links_newlines() {
    let s = "{{#template
            test.rs
            lang=rust
            authors=Goudham & Hazel
            year=2022
        }}";
    let res = extract_template_links(s);
    check_links(
        &res,
        &[(
            0,
            122,
            "test.rs",
            "{{#template\n            test.rs\n            lang=rust\n            authors=Goudham & Hazel\n            year=2022\n        }}",
            &[("lang", "rust"), ("authors", "Goudham & Hazel"), ("year", "2022")],
        )],
    );
}

#[test]
fn test_extract_template_links_with_newlines_tabs() {
    let s = "{{#template
    test.rs
lang=rust
        authors=Goudham & Hazel
year=2022
}}";
    let res = extract_template_links(s);
    check_links(
        &res,
        &[(
            0,
            78,
            "test.rs",
            "{{#template\n    test.rs\nlang=rust\n        authors=Goudham & Hazel\nyear=2022\n}}",
            &[("lang", "rust"), ("authors", "Goudham & Hazel"), ("year", "2022")],
        )],
    );
}

#[test]
fn test_extract_template_links_with_newlines_malformed() {
    let s = [
        "{{#template test.rs \n",
        "        lang=rust\n",
        "        year=2022}}",
    ]
    .concat();
    let res = extract_template_links(&s);
    check_links(
        &res,
        &[(
            0,
            58,
            "test.rs",
            "{{#template test.rs \n        lang=rust\n        year=2022}}",
            &[("lang", "rust"), ("year", "2022")],
        )],
    );
}

#[test]
fn test_extract_zero_args() {
    let s = "This is some text without any template links";
    assert_eq!(extract_args(s), vec![])
}

#[test]
fn test_extract_args_partial_match() {
    let s = "Some random text with [[#height...";
    assert_eq!(extract_args(s), vec![]);
    let s = "Some random text with [[#image ferris.png...";
    assert_eq!(extract_args(s), vec![]);
    let s = "Some random text with [[#width 550...";
    assert_eq!(extract_args(s), vec![]);
    let s = "Some random text with \\[[#title...";
    assert_eq!(extract_args(s), vec![]);
}

#[test]
fn test_extract_args_empty() {
    let s = "Some random text with [[]] [[#]]...";
    assert_eq!(extract_args(s), vec![]);
}

#[test]
fn test_extract_args_simple() {
    let s = "This is some random text with [[#path]] and then some more random text";
    let res = extract_args(s);
    assert_eq!(
        res,
        vec![arg(30, 39, ArgsType::Plain("path".to_string()), "[[#path]]")]
    );
}

#[test]
fn test_extract_args_escaped() {
    let start = r"
        Example Text
        \[[#height 200px]] << an escaped argument!
        ";
    let end = r"
        Example Text
        [[#height 200px]] << an escaped argument!
        ";
    assert_eq!(Args::replace(start, &pairs(&[])), end);
}

#[test]
fn test_extract_args_with_spaces() {
    let s1 = "This is some random text with [[     #path       ]]";
    let s2 = "This is some random text with [[#path       ]]";
    let s3 = "This is some random text with [[     #path]]";

    let res1 = extract_args(s1);
    let res2 = extract_args(s2);
    let res3 = extract_args(s3);

    assert_eq!(
        res1,
        vec![arg(30, 51, ArgsType::Plain("path".to_string()), "[[     #path       ]]")]
    );
    assert_eq!(
        res2,
        vec![arg(30, 46, ArgsType::Plain("path".to_string()), "[[#path       ]]")]
    );
    assert_eq!(
        res3,
        vec![arg(30, 44, ArgsType::Plain("path".to_string()), "[[     #path]]")]
    );
}

#[test]
fn test_extract_args_with_default_value() {
    let s = "This is some random text with [[#path 200px]] and then some more random text";
    let res = extract_args(s);
    assert_eq!(
        res,
        vec![arg(
            30,
            45,
            ArgsType::Default("path".to_string(), "200px".to_string()),
            "[[#path 200px]]"
        )]
    );
}

#[test]
fn test_extract_args_with_default_value_and_spaces() {
    let s = "This is some random text with [[   #path   400px  ]] and then some more random text";
    let res = extract_args(s);
    assert_eq!(
        res,
        vec![arg(
            30,
            52,
            ArgsType::Default("path".to_string(), "400px  ".to_string()),
            "[[   #path   400px  ]]"
        )]
    );
}

#[test]
fn test_extract_args_with_multiple_spaced_default_value() {
    let s = "[[#title An Amazing Title]]";
    let res = extract_args(s);
    assert_eq!(
        res,
        vec![arg(
            0,
            27,
            ArgsType::Default("title".to_string(), "An Amazing Title".to_string()),
            "[[#title An Amazing Title]]"
        )]
    );
}

#[test]
fn test_replace_args_simple() {
    let start = r"
        Example Text
        [[#height]] << an argument!
        ";
    let end = r"
        Example Text
        200px << an argument!
        ";
    assert_eq!(Args::replace(start, &pairs(&[("height", "200px")])), end);
}

#[test]
fn test_replace_args_with_default() {
    let start = r"
        Example Text
        [[#height 300px]] << an argument!
        ";
    let end = r"
        Example Text
        300px << an argument!
        ";
    assert_eq!(Args::replace(start, &pairs(&[])), end);
}

#[test]
fn test_replace_args_overriding_default() {
    let start = r"
        Example Text
        [[#height 300px]] << an argument!
        ";
    let end = r"
        Example Text
        200px << an argument!
        ";
    assert_eq!(Args::replace(start, &pairs(&[("height", "200px")])), end);
}

#[test]
fn value_containing_equals_is_one_argument() {
    let res = extract_template_links("{{#template t.md expr=2+2=4}}");
    assert_eq!(res.len(), 1);
    assert_eq!(
        res[0].arg_strings(),
        vec![("expr".to_string(), "2+2=4".to_string())]
    );
}

#[test]
fn multi_line_layout_parses_like_single_line() {
    let inline = extract_template_links("{{#template t.md a=1 b=x=y c=3}}");
    let multi = extract_template_links("{{#template\n    t.md\n    a=1\n    b=x=y\n    c=3\n}}");
    assert_eq!(inline.len(), 1);
    assert_eq!(multi.len(), 1);
    assert_eq!(inline[0].link_type, LinkType::Template("t.md".to_string()));
    assert_eq!(multi[0].link_type, LinkType::Template("t.md".to_string()));
    assert_eq!(inline[0].arg_strings(), multi[0].arg_strings());
    assert_eq!(
        inline[0].arg_strings(),
        pairs(&[("a", "1"), ("b", "x=y"), ("c", "3")])
    );
}

#[test]
fn token_without_equals_is_skipped() {
    let res = extract_template_links("{{#template t.md junk a=1}}");
    assert_eq!(res[0].arg_strings(), pairs(&[("a", "1")]));
    let res = extract_template_links("{{#template t.md\n junk\n b = 2\n}}");
    assert_eq!(res[0].arg_strings(), pairs(&[("b", " 2")]));
}

#[test]
fn escaped_link_is_found_with_its_text() {
    let res = extract_template_links("a \\{{#template x.md}} b");
    assert_eq!(res.len(), 1);
    assert_eq!(res[0].link_type, LinkType::Escaped);
    assert_eq!(res[0].start_index, 2);
    assert_eq!(res[0].end_index, 21);
    assert_eq!(res[0].link_text, "\\{{#template x.md}}");
}

#[test]
fn plain_placeholder_without_argument_vanishes() {
    assert_eq!(Args::replace("a [[#missing]] b", &pairs(&[])), "a  b");
}

#[test]
fn escaped_placeholder_is_found() {
    let res = extract_args("x \\[[#name]] y");
    assert_eq!(res, vec![arg(2, 12, ArgsType::Escaped, "\\[[#name]]")]);
}
