//! Placeholders, `[[#name]]` and `[[#name default]]`, inside included content,
//! and their substitution.
use crate::links::{lookup, pairs_view, Pair};
use crate::scan::{lemma_shape_wf, placeholder_grammar, shape_at, Matcher, Shape, ShapeSpec};
use crate::text::{chars_of, push_all, push_range, string_of, sub_chars};
use vstd::prelude::*;

verus! {

/// What a placeholder found in a text asks for.
pub enum ArgKind {
    /// `\\[[#...]]`: emitted without the backslash.
    Escaped,
    /// `[[#name]]`: the value of `name`, or nothing.
    Plain(Seq<char>),
    /// `[[#name default]]`: the value of `name`, or the default text.
    Default(Seq<char>, Seq<char>),
}

/// A placeholder found in a text: where it starts and ends, its text, and
/// what it asks for.
pub struct ArgSpec {
    pub start: int,
    pub end: int,
    pub text: Seq<char>,
    pub kind: ArgKind,
}

/// The placeholder that starts at position `i` of `c`, if any.
pub open spec fn arg_at(c: Seq<char>, i: int) -> Option<ArgSpec> {
    match shape_at(placeholder_grammar(), c, i) {
        Some(ShapeSpec::Escaped { end }) => Some(
            ArgSpec { start: i, end, text: c.subrange(i, end), kind: ArgKind::Escaped },
        ),
        Some(ShapeSpec::Bare { name_start, name_end, end }) => Some(
            ArgSpec {
                start: i,
                end,
                text: c.subrange(i, end),
                kind: ArgKind::Plain(c.subrange(name_start, name_end)),
            },
        ),
        Some(ShapeSpec::WithText { name_start, name_end, text_start, text_end, end }) => Some(
            ArgSpec {
                start: i,
                end,
                text: c.subrange(i, end),
                kind: ArgKind::Default(
                    c.subrange(name_start, name_end),
                    c.subrange(text_start, text_end),
                ),
            },
        ),
        None => None,
    }
}

/// A placeholder found at `i` ends after it, inside the text.
pub proof fn lemma_arg_at(c: Seq<char>, i: int)
    requires
        0 <= i < c.len(),
    ensures
        arg_at(c, i) matches Some(a) ==> a.start == i && i < a.end <= c.len() && a.text
            == c.subrange(i, a.end),
{
    reveal_strlit("#");
    lemma_shape_wf(placeholder_grammar(), c, i);
}

/// The placeholders of `c` from position `i` on, left to right.
pub open spec fn args_from(c: Seq<char>, i: int) -> Seq<ArgSpec>
    decreases c.len() - i,
{
    if 0 <= i < c.len() {
        match arg_at(c, i) {
            Some(a) => {
                proof {
                    lemma_arg_at(c, i);
                }
                seq![a] + args_from(c, a.end)
            },
            None => args_from(c, i + 1),
        }
    } else {
        seq![]
    }
}

/// What a placeholder is replaced with, given the arguments.
pub open spec fn resolve(a: ArgSpec, args: Seq<Pair>) -> Seq<char> {
    match a.kind {
        ArgKind::Escaped => a.text.drop_first(),
        ArgKind::Plain(name) => match lookup(args, name) {
            Some(v) => v,
            None => seq![],
        },
        ArgKind::Default(name, default) => match lookup(args, name) {
            Some(v) => v,
            None => default,
        },
    }
}

/// `c` from position `i` on, with each placeholder replaced.
pub open spec fn subst_from(c: Seq<char>, i: int, args: Seq<Pair>) -> Seq<char>
    decreases c.len() - i,
{
    if 0 <= i < c.len() {
        match arg_at(c, i) {
            Some(a) => {
                proof {
                    lemma_arg_at(c, i);
                }
                resolve(a, args) + subst_from(c, a.end, args)
            },
            None => seq![c[i]] + subst_from(c, i + 1, args),
        }
    } else {
        seq![]
    }
}

/// `c` with each placeholder replaced.
pub open spec fn substitute(c: Seq<char>, args: Seq<Pair>) -> Seq<char> {
    subst_from(c, 0, args)
}

/// What a placeholder asks for.
#[derive(Debug, PartialEq, Eq)]
pub enum ArgsType {
    Escaped,
    Plain(String),
    Default(String, String),
}

/// A placeholder found in a text. Positions count characters.
#[derive(Debug, PartialEq, Eq)]
pub struct Args {
    pub start_index: usize,
    pub end_index: usize,
    pub args_type: ArgsType,
    pub args_text: String,
}

impl View for Args {
    type V = ArgSpec;

    open spec fn view(&self) -> ArgSpec {
        ArgSpec {
            start: self.start_index as int,
            end: self.end_index as int,
            text: self.args_text@,
            kind: match self.args_type {
                ArgsType::Escaped => ArgKind::Escaped,
                ArgsType::Plain(n) => ArgKind::Plain(n@),
                ArgsType::Default(n, d) => ArgKind::Default(n@, d@),
            },
        }
    }
}

pub fn chars_equal(a: &Vec<char>, b: &Vec<char>) -> (r: bool)
    ensures
        r == (a@ == b@),
{
    if a.len() != b.len() {
        return false;
    }
    let mut k: usize = 0;
    while k < a.len()
        invariant
            k <= a.len() == b.len(),
            forall|j: int| 0 <= j < k ==> a@[j] == b@[j],
        decreases a.len() - k,
    {
        if a[k] != b[k] {
            return false;
        }
        k = k + 1;
    }
    assert(a@ =~= b@);
    true
}

/// The value of the last pair named `name`.
pub fn lookup_value<'a>(args: &'a Vec<(Vec<char>, Vec<char>)>, name: &Vec<char>) -> (r: Option<
    &'a Vec<char>,
>)
    ensures
        match r {
            Some(v) => lookup(pairs_view(args@), name@) == Some(v@),
            None => lookup(pairs_view(args@), name@) is None,
        },
{
    let mut k = args.len();
    assert(args@.subrange(0, k as int) =~= args@);
    while k > 0
        invariant
            k <= args.len(),
            lookup(pairs_view(args@.subrange(0, k as int)), name@) == lookup(
                pairs_view(args@),
                name@,
            ),
        decreases k,
    {
        let ghost pre = pairs_view(args@.subrange(0, k as int));
        assert(pre.drop_last() =~= pairs_view(args@.subrange(0, k - 1)));
        if chars_equal(&args[k - 1].0, name) {
            return Some(&args[k - 1].1);
        }
        k = k - 1;
    }
    None
}

impl Args {
    /// The placeholder that starts at position `i` of `c`, if any.
    fn at(m: &Matcher, c: &Vec<char>, i: usize) -> (r: Option<Args>)
        requires
            i < c.len(),
            m@ == placeholder_grammar(),
        ensures
            match r {
                Some(a) => arg_at(c@, i as int) == Some(a@),
                None => arg_at(c@, i as int) is None,
            },
    {
        proof {
            reveal_strlit("#");
            lemma_shape_wf(placeholder_grammar(), c@, i as int);
        }
        let (end, args_type) = match m.shape_at(c, i) {
            Some(Shape::Escaped { end }) => (end, ArgsType::Escaped),
            Some(Shape::Bare { name_start, name_end, end }) => (
                end,
                ArgsType::Plain(string_of(&sub_chars(c, name_start, name_end))),
            ),
            Some(Shape::WithText { name_start, name_end, text_start, text_end, end }) => (
                end,
                ArgsType::Default(
                    string_of(&sub_chars(c, name_start, name_end)),
                    string_of(&sub_chars(c, text_start, text_end)),
                ),
            ),
            None => {
                return None;
            },
        };
        Some(
            Args {
                start_index: i,
                end_index: end,
                args_type,
                args_text: string_of(&sub_chars(c, i, end)),
            },
        )
    }

    /// Replaces each placeholder of `contents` with the value of its argument,
    /// with its default text where it has one and the argument is missing, or
    /// with nothing; an escaped placeholder loses its backslash. Where a name
    /// occurs twice among the arguments, the later pair counts.
    pub fn replace(contents: &str, all_args: &Vec<(String, String)>) -> (r: String)
        ensures
            r@ == substitute(
                contents@,
                all_args@.map_values(|p: (String, String)| (p.0@, p.1@)),
            ),
    {
        let mut pairs: Vec<(Vec<char>, Vec<char>)> = Vec::new();
        let mut k: usize = 0;
        while k < all_args.len()
            invariant
                k <= all_args.len(),
                pairs_view(pairs@) == all_args@.subrange(0, k as int).map_values(
                    |p: (String, String)| (p.0@, p.1@),
                ),
            decreases all_args.len() - k,
        {
            let ghost before = pairs@;
            let name = chars_of(all_args[k].0.as_str());
            let value = chars_of(all_args[k].1.as_str());
            assert(name@ == all_args@[k as int].0@ && value@ == all_args@[k as int].1@);
            pairs.push((name, value));
            assert(pairs_view(pairs@) =~= pairs_view(before).push((name@, value@)));
            assert(pairs_view(pairs@) =~= all_args@.subrange(0, k + 1).map_values(
                |p: (String, String)| (p.0@, p.1@),
            ));
            k = k + 1;
        }
        assert(all_args@.subrange(0, all_args.len() as int) =~= all_args@);
        let c = chars_of(contents);
        string_of(&substitute_chars(&c, &pairs))
    }
}

/// `c` with each placeholder replaced, given the arguments.
pub fn substitute_chars(c: &Vec<char>, args: &Vec<(Vec<char>, Vec<char>)>) -> (r: Vec<char>)
    ensures
        r@ == substitute(c@, pairs_view(args@)),
{
    let m = Matcher::placeholder();
    let ghost a = pairs_view(args@);
    let mut out: Vec<char> = Vec::new();
    let mut i: usize = 0;
    while i < c.len()
        invariant
            i <= c.len(),
            m@ == placeholder_grammar(),
            a == pairs_view(args@),
            out@ + subst_from(c@, i as int, a) == substitute(c@, a),
        decreases c.len() - i,
    {
        proof {
            reveal_strlit("#");
            lemma_shape_wf(placeholder_grammar(), c@, i as int);
        }
        match m.shape_at(c, i) {
            Some(Shape::Escaped { end }) => {
                push_range(&mut out, c, i + 1, end);
                assert(c@.subrange(i as int, end as int).drop_first() =~= c@.subrange(
                    i + 1,
                    end as int,
                ));
                i = end;
            },
            Some(Shape::Bare { name_start, name_end, end }) => {
                let name = sub_chars(c, name_start, name_end);
                match lookup_value(args, &name) {
                    Some(v) => push_all(&mut out, v),
                    None => {},
                }
                i = end;
            },
            Some(Shape::WithText { name_start, name_end, text_start, text_end, end }) => {
                let name = sub_chars(c, name_start, name_end);
                match lookup_value(args, &name) {
                    Some(v) => push_all(&mut out, v),
                    None => push_range(&mut out, c, text_start, text_end),
                }
                i = end;
            },
            None => {
                out.push(c[i]);
                i = i + 1;
            },
        }
    }
    assert(out@ =~= substitute(c@, a));
    out
}

/// The placeholders of `contents`, left to right and without overlap.
pub fn extract_args(contents: &str) -> (r: Vec<Args>)
    ensures
        r@.map_values(|a: Args| a@) == args_from(contents@, 0),
{
    let c = chars_of(contents);
    let m = Matcher::placeholder();
    let mut out: Vec<Args> = Vec::new();
    let mut i: usize = 0;
    while i < c.len()
        invariant
            i <= c.len(),
            m@ == placeholder_grammar(),
            c@ == contents@,
            out@.map_values(|a: Args| a@) + args_from(c@, i as int) == args_from(c@, 0),
        decreases c.len() - i,
    {
        match Args::at(&m, &c, i) {
            Some(a) => {
                proof {
                    lemma_arg_at(c@, i as int);
                }
                let ghost before = out@;
                let next = a.end_index;
                out.push(a);
                assert(out@.map_values(|a: Args| a@) =~= before.map_values(|a: Args| a@).push(a@));
                assert(out@.map_values(|a: Args| a@) + args_from(c@, next as int) =~= before.map_values(
                    |a: Args| a@,
                ) + args_from(c@, i as int));
                i = next;
            },
            None => {
                i = i + 1;
            },
        }
    }
    assert(out@.map_values(|a: Args| a@) =~= args_from(c@, 0));
    out
}

} // verus!
