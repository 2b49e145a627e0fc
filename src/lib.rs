//! Recursive template expansion for book chapters.
//!
//! A chapter may hold invocations, `{{#template path name=value ...}}`. Each
//! one is replaced with the content of the file at `path`, relative to the
//! chapter's directory, after the placeholders of that content,
//! `[[#name]]` and `[[#name default]]`, have been replaced with the
//! invocation's arguments. The result is expanded in turn, relative to the
//! included file's directory, down to a fixed depth.
use vstd::prelude::*;

pub mod args;
pub mod layout;
pub mod links;
pub mod paths;
pub mod scan;
pub mod text;
pub mod utils;

use crate::args::{substitute, substitute_chars};
use crate::links::{lemma_link_at, link_at, link_at_exec, LinkKind, LinkSpec, LinkType};
use crate::paths::{dir_of, dir_path, join_path, joined};
use crate::scan::{template_grammar, Matcher};
use crate::text::{chars_of, push_all, push_range, string_of};
use crate::utils::FileReader;

verus! {

/// How deep invocations may nest: below this depth an included file is
/// expanded in turn; at it, an invocation whose file can be read expands to
/// nothing.
pub const MAX_LINK_NESTED_DEPTH: usize = 10;

/// What is left of the nesting budget at `depth`.
pub open spec fn budget(depth: nat) -> nat {
    if depth < MAX_LINK_NESTED_DEPTH {
        (MAX_LINK_NESTED_DEPTH - depth) as nat
    } else {
        0
    }
}

/// What the invocation `l`, found in a text that is expanded at `depth`
/// against `base`, becomes, given the expansion `inner` of the content that it
/// includes.
pub open spec fn outcome<FR: FileReader>(
    reader: &FR,
    l: LinkSpec,
    base: Seq<char>,
    depth: nat,
    inner: spec_fn(Seq<char>, Seq<char>) -> Seq<char>,
) -> Seq<char> {
    match l.kind {
        LinkKind::Escaped => l.text.drop_first(),
        LinkKind::Template { path, args } => match reader.contents(joined(base, path)) {
            None => l.text,
            Some(c) => if depth < MAX_LINK_NESTED_DEPTH {
                inner(substitute(c, args), dir_of(joined(base, path)))
            } else {
                seq![]
            },
        },
    }
}

/// The expansion of `s` from position `i` on, at `depth`, against the base
/// directory `base`: text outside invocations is copied; an escaped
/// invocation loses its backslash; an invocation whose file cannot be read
/// stays as it is; one whose file can be read is replaced, below the depth
/// bound, with the expansion of the file's content after substitution, one
/// level deeper and against the file's directory, and at the bound with
/// nothing.
pub open spec fn expand_from<FR: FileReader>(
    reader: &FR,
    s: Seq<char>,
    i: int,
    base: Seq<char>,
    depth: nat,
) -> Seq<char>
    decreases budget(depth), s.len() - i,
{
    if 0 <= i < s.len() {
        match link_at(s, i) {
            Some(l) => {
                proof {
                    lemma_link_at(s, i);
                }
                let rest = expand_from(reader, s, l.end, base, depth);
                match l.kind {
                    LinkKind::Escaped => l.text.drop_first() + rest,
                    LinkKind::Template { path, args } => match reader.contents(
                        joined(base, path),
                    ) {
                        None => l.text + rest,
                        Some(c) => if depth < MAX_LINK_NESTED_DEPTH {
                            expand_from(
                                reader,
                                substitute(c, args),
                                0,
                                dir_of(joined(base, path)),
                                depth + 1,
                            ) + rest
                        } else {
                            rest
                        },
                    },
                }
            },
            None => seq![s[i]] + expand_from(reader, s, i + 1, base, depth),
        }
    } else {
        seq![]
    }
}

/// The expansion of `s` at `depth` against the base directory `base`.
pub open spec fn expand<FR: FileReader>(
    reader: &FR,
    s: Seq<char>,
    base: Seq<char>,
    depth: nat,
) -> Seq<char> {
    expand_from(reader, s, 0, base, depth)
}

/// A problem met while expanding, as the contracts see it.
pub enum ProblemSpec {
    /// The file `file`, asked for by the invocation `text`, cannot be read;
    /// the invocation stays in the result as written.
    Unreadable { file: Seq<char>, text: Seq<char> },
    /// The invocation `text`, which asks for the readable file `file`, lies at
    /// the nesting bound; it expands to nothing.
    TooDeep { file: Seq<char>, text: Seq<char> },
}

/// The problems met while expanding `s` from position `i` on, in the order
/// in which the expansion meets them.
pub open spec fn problems_from<FR: FileReader>(
    reader: &FR,
    s: Seq<char>,
    i: int,
    base: Seq<char>,
    depth: nat,
) -> Seq<ProblemSpec>
    decreases budget(depth), s.len() - i,
{
    if 0 <= i < s.len() {
        match link_at(s, i) {
            Some(l) => {
                proof {
                    lemma_link_at(s, i);
                }
                let rest = problems_from(reader, s, l.end, base, depth);
                match l.kind {
                    LinkKind::Escaped => rest,
                    LinkKind::Template { path, args } => {
                        let file = joined(base, path);
                        match reader.contents(file) {
                            None => seq![ProblemSpec::Unreadable { file, text: l.text }] + rest,
                            Some(c) => if depth < MAX_LINK_NESTED_DEPTH {
                                problems_from(
                                    reader,
                                    substitute(c, args),
                                    0,
                                    dir_of(file),
                                    depth + 1,
                                ) + rest
                            } else {
                                seq![ProblemSpec::TooDeep { file, text: l.text }] + rest
                            },
                        }
                    },
                }
            },
            None => problems_from(reader, s, i + 1, base, depth),
        }
    } else {
        seq![]
    }
}

/// The problems met while expanding `s` at `depth` against `base`.
pub open spec fn problems<FR: FileReader>(
    reader: &FR,
    s: Seq<char>,
    base: Seq<char>,
    depth: nat,
) -> Seq<ProblemSpec> {
    problems_from(reader, s, 0, base, depth)
}

/// A problem met while expanding. Neither stops the expansion.
#[derive(Debug, PartialEq, Eq)]
pub enum Diagnostic {
    /// A template file cannot be read: its path, the invocation that asked
    /// for it, and the reader's message.
    FileReadFailure { file: String, link_text: String, message: String },
    /// An invocation at the nesting bound, most likely of a template that
    /// includes itself: the file it asks for, and the invocation.
    DepthExceeded { file: String, link_text: String },
}

impl View for Diagnostic {
    type V = ProblemSpec;

    open spec fn view(&self) -> ProblemSpec {
        match self {
            Diagnostic::FileReadFailure { file, link_text, .. } => ProblemSpec::Unreadable {
                file: file@,
                text: link_text@,
            },
            Diagnostic::DepthExceeded { file, link_text } => ProblemSpec::TooDeep {
                file: file@,
                text: link_text@,
            },
        }
    }
}

/// Views of a list of diagnostics.
pub open spec fn diagnostics_view(v: Seq<Diagnostic>) -> Seq<ProblemSpec> {
    v.map_values(|d: Diagnostic| d@)
}

/// The expansion of `s` at `depth` against `base`, as characters; the
/// problems met are added to `found`.
#[verifier::rlimit(40)]
fn expand_chars<FR: FileReader>(
    s: &Vec<char>,
    reader: &FR,
    base: &str,
    depth: usize,
    found: &mut Vec<Diagnostic>,
) -> (r: Vec<char>)
    ensures
        r@ == expand(reader, s@, base@, depth as nat),
        diagnostics_view(final(found)@) == diagnostics_view(old(found)@) + problems(
            reader,
            s@,
            base@,
            depth as nat,
        ),
    decreases budget(depth as nat),
{
    let ghost start = diagnostics_view(found@);
    let m = Matcher::template();
    let mut out: Vec<char> = Vec::new();
    let mut i: usize = 0;
    while i < s.len()
        invariant
            i <= s.len(),
            m@ == template_grammar(),
            out@ + expand_from(reader, s@, i as int, base@, depth as nat) == expand(
                reader,
                s@,
                base@,
                depth as nat,
            ),
            diagnostics_view(found@) + problems_from(reader, s@, i as int, base@, depth as nat)
                == start + problems(reader, s@, base@, depth as nat),
        decreases s.len() - i,
    {
        proof {
            lemma_link_at(s@, i as int);
        }
        match link_at_exec(&m, s, i) {
            Some(link) => {
                match &link.link_type {
                    LinkType::Escaped => {
                        push_range(&mut out, s, i + 1, link.end_index);
                        assert(link@.text.drop_first() =~= s@.subrange(
                            i + 1,
                            link.end_index as int,
                        ));
                    },
                    LinkType::Template(path) => {
                        let file = join_path(base, path.as_str());
                        match reader.read_to_string(file.as_str(), link.link_text.as_str()) {
                            Ok(content) => {
                                if depth < MAX_LINK_NESTED_DEPTH {
                                    let c = chars_of(content.as_str());
                                    let filled = substitute_chars(&c, &link.args);
                                    let dir = dir_path(file.as_str());
                                    let nested = expand_chars(
                                        &filled,
                                        reader,
                                        dir.as_str(),
                                        depth + 1,
                                        found,
                                    );
                                    push_all(&mut out, &nested);
                                } else {
                                    found.push(
                                        Diagnostic::DepthExceeded {
                                            file,
                                            link_text: link.link_text.clone(),
                                        },
                                    );
                                }
                            },
                            Err(message) => {
                                push_range(&mut out, s, i, link.end_index);
                                found.push(
                                    Diagnostic::FileReadFailure {
                                        file,
                                        link_text: link.link_text.clone(),
                                        message,
                                    },
                                );
                            },
                        }
                    },
                }
                i = link.end_index;
            },
            None => {
                out.push(s[i]);
                i = i + 1;
            },
        }
    }
    assert(out@ =~= expand(reader, s@, base@, depth as nat));
    assert(diagnostics_view(found@) =~= start + problems(reader, s@, base@, depth as nat));
    out
}

/// Expands every invocation of `chapter_content`, as `replace_template`
/// does, and also gives the problems met, in the order met: files that
/// cannot be read and invocations at the nesting bound.
pub fn replace_template_with_diagnostics<FR: FileReader>(
    chapter_content: &str,
    file_reader: &FR,
    base: &str,
    depth: usize,
) -> (r: (String, Vec<Diagnostic>))
    ensures
        r.0@ == expand(file_reader, chapter_content@, base@, depth as nat),
        diagnostics_view(r.1@) == problems(file_reader, chapter_content@, base@, depth as nat),
{
    let s = chars_of(chapter_content);
    let mut found: Vec<Diagnostic> = Vec::new();
    let out = expand_chars(&s, file_reader, base, depth, &mut found);
    assert(diagnostics_view(found@) =~= problems(file_reader, chapter_content@, base@, depth as nat));
    (string_of(&out), found)
}

/// Expands every invocation of `chapter_content`, recursively, reading
/// template files through `file_reader` and resolving their paths against
/// `base`. `depth` is the nesting level of `chapter_content`: 0 for a chapter.
/// `source` names the chapter; the result does not depend on it.
#[allow(unused_variables)]
pub fn replace_template<FR: FileReader>(
    chapter_content: &str,
    file_reader: &FR,
    base: &str,
    source: &str,
    depth: usize,
) -> (r: String)
    ensures
        r@ == expand(file_reader, chapter_content@, base@, depth as nat),
{
    replace_template_with_diagnostics(chapter_content, file_reader, base, depth).0
}

/// The template preprocessor.
#[derive(Default)]
pub struct Template;

impl Template {
    pub fn new() -> Self {
        Template
    }

    /// The name under which the preprocessor is configured.
    pub fn name(&self) -> (r: &'static str)
        ensures
            r@ == "template"@,
    {
        "template"
    }

    /// The preprocessor runs for the HTML renderer only.
    pub fn supports_renderer(&self, renderer: &str) -> (r: bool)
        ensures
            r == (renderer@ == "html"@),
    {
        let given = chars_of(renderer);
        let html = chars_of("html");
        crate::args::chars_equal(&given, &html)
    }
}

} // verus!
