//! What an expansion is made of: the text between the invocations, kept as
//! it is, and what each invocation becomes, in order; and what follows for
//! unreadable files and for the nesting bound.
use crate::args::substitute;
use crate::links::{
    lemma_link_at, lemma_links_well_placed, link_at, links_from, links_of, well_placed, LinkKind,
    LinkSpec,
};
use crate::paths::{dir_of, joined};
use crate::utils::FileReader;
use crate::{
    expand, expand_from, outcome, problems, problems_from, ProblemSpec, MAX_LINK_NESTED_DEPTH,
};
use vstd::prelude::*;

verus! {

/// `s` from position `from` on, with each invocation of `ls` replaced by
/// `piece` of it and the text around them copied.
pub open spec fn assemble(
    s: Seq<char>,
    ls: Seq<LinkSpec>,
    from: int,
    piece: spec_fn(LinkSpec) -> Seq<char>,
) -> Seq<char>
    decreases ls.len(),
{
    if ls.len() == 0 {
        s.subrange(from, s.len() as int)
    } else {
        s.subrange(from, ls[0].start) + piece(ls[0]) + assemble(s, ls.drop_first(), ls[0].end, piece)
    }
}

/// What each invocation becomes when `s` is expanded at `depth` against
/// `base`.
pub open spec fn piece_at<FR: FileReader>(reader: &FR, base: Seq<char>, depth: nat) -> spec_fn(
    LinkSpec,
) -> Seq<char> {
    |l: LinkSpec|
        outcome(
            reader,
            l,
            base,
            depth,
            |c: Seq<char>, b: Seq<char>| expand(reader, c, b, depth + 1),
        )
}

proof fn lemma_expand_from_layout<FR: FileReader>(
    reader: &FR,
    s: Seq<char>,
    i: int,
    base: Seq<char>,
    depth: nat,
)
    requires
        0 <= i <= s.len(),
    ensures
        expand_from(reader, s, i, base, depth) == assemble(
            s,
            links_from(s, i),
            i,
            piece_at(reader, base, depth),
        ),
    decreases s.len() - i,
{
    let piece = piece_at(reader, base, depth);
    if i < s.len() {
        lemma_link_at(s, i);
        match link_at(s, i) {
            Some(l) => {
                lemma_expand_from_layout(reader, s, l.end, base, depth);
                let ls = links_from(s, i);
                assert(ls == seq![l] + links_from(s, l.end));
                assert(ls.drop_first() =~= links_from(s, l.end));
                assert(s.subrange(i, i) =~= seq![]);
                assert(assemble(s, ls, i, piece) == s.subrange(i, ls[0].start) + piece(ls[0])
                    + assemble(s, ls.drop_first(), ls[0].end, piece));
                assert(expand_from(reader, s, i, base, depth) =~= assemble(s, ls, i, piece));
            },
            None => {
                lemma_expand_from_layout(reader, s, i + 1, base, depth);
                lemma_links_well_placed(s, i + 1);
                let ls = links_from(s, i + 1);
                if ls.len() == 0 {
                    assert(s.subrange(i, s.len() as int) =~= seq![s[i]] + s.subrange(
                        i + 1,
                        s.len() as int,
                    ));
                } else {
                    assert(ls[0].start >= i + 1);
                    assert(s.subrange(i, ls[0].start) =~= seq![s[i]] + s.subrange(
                        i + 1,
                        ls[0].start,
                    ));
                }
                assert(expand_from(reader, s, i, base, depth) =~= assemble(s, ls, i, piece));
            },
        }
    }
}

/// Expansion keeps the text outside the invocations, character for
/// character and in order: the invocations of `s` lie in order and without
/// overlap, and the result is the text before the first, what the first
/// becomes, the text up to the second, and so on, then the text after the last.
pub proof fn lemma_expansion_layout<FR: FileReader>(
    reader: &FR,
    s: Seq<char>,
    base: Seq<char>,
    depth: nat,
)
    ensures
        well_placed(s, links_of(s), 0),
        expand(reader, s, base, depth) == assemble(
            s,
            links_of(s),
            0,
            piece_at(reader, base, depth),
        ),
{
    lemma_links_well_placed(s, 0);
    lemma_expand_from_layout(reader, s, 0, base, depth);
}

proof fn lemma_assemble_congruent(
    s: Seq<char>,
    ls: Seq<LinkSpec>,
    from: int,
    p: spec_fn(LinkSpec) -> Seq<char>,
    q: spec_fn(LinkSpec) -> Seq<char>,
)
    requires
        forall|k: int| 0 <= k < ls.len() ==> p(#[trigger] ls[k]) == q(ls[k]),
    ensures
        assemble(s, ls, from, p) == assemble(s, ls, from, q),
    decreases ls.len(),
{
    if ls.len() > 0 {
        assert(p(ls[0]) == q(ls[0]));
        let rest = ls.drop_first();
        assert forall|k: int| 0 <= k < rest.len() implies p(#[trigger] rest[k]) == q(rest[k]) by {
            assert(rest[k] == ls[k + 1]);
        }
        lemma_assemble_congruent(s, rest, ls[0].end, p, q);
    }
}

/// What an invocation becomes at or past the nesting bound.
pub open spec fn at_bound<FR: FileReader>(reader: &FR, base: Seq<char>) -> spec_fn(
    LinkSpec,
) -> Seq<char> {
    |l: LinkSpec|
        match l.kind {
            LinkKind::Escaped => l.text.drop_first(),
            LinkKind::Template { path, .. } => match reader.contents(joined(base, path)) {
                None => l.text,
                Some(_) => seq![],
            },
        }
}

/// At or past the nesting bound nothing is included: an invocation whose
/// file can be read disappears, one whose file cannot keeps its text, and
/// the text around them stays. So a template that includes itself, directly
/// or through others, is expanded at most that many levels deep.
pub proof fn lemma_depth_bound<FR: FileReader>(
    reader: &FR,
    s: Seq<char>,
    base: Seq<char>,
    depth: nat,
)
    requires
        depth >= MAX_LINK_NESTED_DEPTH,
    ensures
        expand(reader, s, base, depth) == assemble(s, links_of(s), 0, at_bound(reader, base)),
{
    lemma_expansion_layout(reader, s, base, depth);
    let ls = links_of(s);
    assert forall|k: int| 0 <= k < ls.len() implies (piece_at(reader, base, depth))(
        #[trigger] ls[k],
    ) == (at_bound(reader, base))(ls[k]) by {}
    lemma_assemble_congruent(s, ls, 0, piece_at(reader, base, depth), at_bound(reader, base));
}

proof fn lemma_assemble_texts(s: Seq<char>, ls: Seq<LinkSpec>, from: int)
    requires
        0 <= from <= s.len(),
        well_placed(s, ls, from),
    ensures
        assemble(s, ls, from, |l: LinkSpec| l.text) == s.subrange(from, s.len() as int),
    decreases ls.len(),
{
    if ls.len() > 0 {
        let rest = ls.drop_first();
        assert forall|k: int| 0 <= k < rest.len() implies ls[0].end <= (#[trigger] rest[k]).start
            by {
            assert(rest[k] == ls[k + 1]);
            if k > 0 {
                assert(rest[k - 1] == ls[k]);
            }
            assert forall|j: int| 0 <= j < k implies ls[j].end <= ls[j + 1].start by {
                assert(ls[j].end <= ls[j + 1].start);
            }
            lemma_chain(ls, 0, k + 1);
        }
        assert forall|k: int| 0 <= k < rest.len() - 1 implies (#[trigger] rest[k]).end <= rest[k
            + 1].start by {
            assert(rest[k] == ls[k + 1]);
            assert(rest[k + 1] == ls[k + 2]);
        }
        assert forall|k: int| 0 <= k < rest.len() implies (#[trigger] rest[k]).start < rest[k].end
            <= s.len() && rest[k].text == s.subrange(rest[k].start, rest[k].end) by {
            assert(rest[k] == ls[k + 1]);
        }
        lemma_assemble_texts(s, rest, ls[0].end);
        assert(s.subrange(from, s.len() as int) =~= s.subrange(from, ls[0].start) + ls[0].text
            + s.subrange(ls[0].end, s.len() as int));
    }
}

/// In a well-placed list each invocation ends before any later one starts.
proof fn lemma_chain(ls: Seq<LinkSpec>, j: int, k: int)
    requires
        0 <= j < k < ls.len(),
        forall|m: int| 0 <= m < ls.len() ==> (#[trigger] ls[m]).start < ls[m].end,
        forall|m: int| 0 <= m < ls.len() - 1 ==> (#[trigger] ls[m]).end <= ls[m + 1].start,
    ensures
        ls[j].end <= ls[k].start,
    decreases k - j,
{
    assert(ls[j].end <= ls[j + 1].start);
    if j + 1 < k {
        lemma_chain(ls, j + 1, k);
        assert(ls[j + 1].start < ls[j + 1].end);
    }
}

/// A text whose invocations all name files that cannot be read, none of them
/// escaped, expands to itself: each invocation stays as it was written.
pub proof fn lemma_unreadable_files_kept<FR: FileReader>(
    reader: &FR,
    s: Seq<char>,
    base: Seq<char>,
    depth: nat,
)
    requires
        forall|k: int|
            0 <= k < links_of(s).len() ==> match (#[trigger] links_of(s)[k]).kind {
                LinkKind::Escaped => false,
                LinkKind::Template { path, .. } => reader.contents(joined(base, path)) is None,
            },
    ensures
        expand(reader, s, base, depth) == s,
{
    lemma_expansion_layout(reader, s, base, depth);
    let ls = links_of(s);
    let texts = |l: LinkSpec| l.text;
    assert forall|k: int| 0 <= k < ls.len() implies (piece_at(reader, base, depth))(
        #[trigger] ls[k],
    ) == texts(ls[k]) by {}
    lemma_assemble_congruent(s, ls, 0, piece_at(reader, base, depth), texts);
    lemma_assemble_texts(s, ls, 0);
    assert(s.subrange(0, s.len() as int) =~= s);
}

/// The problems of each invocation of `ls`, by `f`, one list after the
/// other.
pub open spec fn gather(ls: Seq<LinkSpec>, f: spec_fn(LinkSpec) -> Seq<ProblemSpec>) -> Seq<
    ProblemSpec,
>
    decreases ls.len(),
{
    if ls.len() == 0 {
        seq![]
    } else {
        f(ls[0]) + gather(ls.drop_first(), f)
    }
}

/// The problems that each invocation brings when a text is expanded at
/// `depth` against `base`: none for an escaped one, one for a file that
/// cannot be read, those of the included content below the bound, and one at
/// the bound.
pub open spec fn problems_at<FR: FileReader>(reader: &FR, base: Seq<char>, depth: nat) -> spec_fn(
    LinkSpec,
) -> Seq<ProblemSpec> {
    |l: LinkSpec|
        match l.kind {
            LinkKind::Escaped => seq![],
            LinkKind::Template { path, args } => {
                let file = joined(base, path);
                match reader.contents(file) {
                    None => seq![ProblemSpec::Unreadable { file, text: l.text }],
                    Some(c) => if depth < MAX_LINK_NESTED_DEPTH {
                        problems(reader, substitute(c, args), dir_of(file), depth + 1)
                    } else {
                        seq![ProblemSpec::TooDeep { file, text: l.text }]
                    },
                }
            },
        }
}

proof fn lemma_problems_from_layout<FR: FileReader>(
    reader: &FR,
    s: Seq<char>,
    i: int,
    base: Seq<char>,
    depth: nat,
)
    requires
        0 <= i <= s.len(),
    ensures
        problems_from(reader, s, i, base, depth) == gather(
            links_from(s, i),
            problems_at(reader, base, depth),
        ),
    decreases s.len() - i,
{
    if i < s.len() {
        lemma_link_at(s, i);
        match link_at(s, i) {
            Some(l) => {
                lemma_problems_from_layout(reader, s, l.end, base, depth);
                let ls = links_from(s, i);
                assert(ls == seq![l] + links_from(s, l.end));
                assert(ls.drop_first() =~= links_from(s, l.end));
                assert(problems_from(reader, s, i, base, depth) =~= gather(
                    ls,
                    problems_at(reader, base, depth),
                ));
            },
            None => {
                lemma_problems_from_layout(reader, s, i + 1, base, depth);
            },
        }
    }
}

/// The problems of an expansion are those of the invocations of the text,
/// in order: an unreadable file gives one, an invocation at the nesting bound
/// gives one, and an included file gives those of its own expansion.
pub proof fn lemma_problems_layout<FR: FileReader>(
    reader: &FR,
    s: Seq<char>,
    base: Seq<char>,
    depth: nat,
)
    ensures
        problems(reader, s, base, depth) == gather(links_of(s), problems_at(reader, base, depth)),
{
    lemma_problems_from_layout(reader, s, 0, base, depth);
}

proof fn lemma_gather_congruent(
    ls: Seq<LinkSpec>,
    p: spec_fn(LinkSpec) -> Seq<ProblemSpec>,
    q: spec_fn(LinkSpec) -> Seq<ProblemSpec>,
)
    requires
        forall|k: int| 0 <= k < ls.len() ==> p(#[trigger] ls[k]) == q(ls[k]),
    ensures
        gather(ls, p) == gather(ls, q),
    decreases ls.len(),
{
    if ls.len() > 0 {
        assert(p(ls[0]) == q(ls[0]));
        let rest = ls.drop_first();
        assert forall|k: int| 0 <= k < rest.len() implies p(#[trigger] rest[k]) == q(rest[k]) by {
            assert(rest[k] == ls[k + 1]);
        }
        lemma_gather_congruent(rest, p, q);
    }
}

proof fn lemma_gather_single(ls: Seq<LinkSpec>, f: spec_fn(LinkSpec) -> ProblemSpec)
    ensures
        gather(ls, |l: LinkSpec| seq![f(l)]) == ls.map_values(f),
    decreases ls.len(),
{
    if ls.len() > 0 {
        lemma_gather_single(ls.drop_first(), f);
        assert(ls.map_values(f) =~= seq![f(ls[0])] + ls.drop_first().map_values(f));
    }
}

/// The diagnostic that a template invocation of an unreadable file brings.
pub open spec fn unreadable_problem(base: Seq<char>) -> spec_fn(LinkSpec) -> ProblemSpec {
    |l: LinkSpec|
        match l.kind {
            LinkKind::Template { path, .. } => ProblemSpec::Unreadable {
                file: joined(base, path),
                text: l.text,
            },
            LinkKind::Escaped => ProblemSpec::Unreadable { file: seq![], text: l.text },
        }
}

/// Where every invocation of `s` names a file that cannot be read, none of
/// them escaped, each one brings exactly one diagnostic, in order, naming the
/// file and the invocation.
pub proof fn lemma_unreadable_files_reported<FR: FileReader>(
    reader: &FR,
    s: Seq<char>,
    base: Seq<char>,
    depth: nat,
)
    requires
        forall|k: int|
            0 <= k < links_of(s).len() ==> match (#[trigger] links_of(s)[k]).kind {
                LinkKind::Escaped => false,
                LinkKind::Template { path, .. } => reader.contents(joined(base, path)) is None,
            },
    ensures
        problems(reader, s, base, depth) == links_of(s).map_values(unreadable_problem(base)),
{
    lemma_problems_layout(reader, s, base, depth);
    let ls = links_of(s);
    let f = unreadable_problem(base);
    let single = |l: LinkSpec| seq![f(l)];
    assert forall|k: int| 0 <= k < ls.len() implies (problems_at(reader, base, depth))(
        #[trigger] ls[k],
    ) == single(ls[k]) by {}
    lemma_gather_congruent(ls, problems_at(reader, base, depth), single);
    lemma_gather_single(ls, f);
}

/// The diagnostics that an invocation brings at or past the nesting bound.
pub open spec fn problems_at_bound<FR: FileReader>(reader: &FR, base: Seq<char>) -> spec_fn(
    LinkSpec,
) -> Seq<ProblemSpec> {
    |l: LinkSpec|
        match l.kind {
            LinkKind::Escaped => seq![],
            LinkKind::Template { path, .. } => {
                let file = joined(base, path);
                match reader.contents(file) {
                    None => seq![ProblemSpec::Unreadable { file, text: l.text }],
                    Some(_) => seq![ProblemSpec::TooDeep { file, text: l.text }],
                }
            },
        }
}

/// At or past the nesting bound, every invocation whose file can be read is
/// reported as too deep instead of being expanded.
pub proof fn lemma_depth_bound_reported<FR: FileReader>(
    reader: &FR,
    s: Seq<char>,
    base: Seq<char>,
    depth: nat,
)
    requires
        depth >= MAX_LINK_NESTED_DEPTH,
    ensures
        problems(reader, s, base, depth) == gather(links_of(s), problems_at_bound(reader, base)),
{
    lemma_problems_layout(reader, s, base, depth);
    let ls = links_of(s);
    assert forall|k: int| 0 <= k < ls.len() implies (problems_at(reader, base, depth))(
        #[trigger] ls[k],
    ) == (problems_at_bound(reader, base))(ls[k]) by {}
    lemma_gather_congruent(ls, problems_at(reader, base, depth), problems_at_bound(reader, base));
}

} // verus!
