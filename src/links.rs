//! Template invocations, `{{#template path args}}`, and their arguments.
use crate::scan::{
    after_run, after_ws, lemma_shape_wf, shape_at, template_grammar, Matcher, Shape, ShapeSpec,
};
use crate::text::{is_whitespace, is_ws, string_of, sub_chars};
use vstd::prelude::*;

verus! {

/// A name and its value, as characters.
pub type Pair = (Seq<char>, Seq<char>);

/// A line break ends a line of a multi-line argument list.
pub open spec fn is_break(c: char) -> bool {
    c == '\n' || c == '\r'
}

pub open spec fn has_break(a: Seq<char>) -> bool {
    exists|i: int| 0 <= i < a.len() && is_break(#[trigger] a[i])
}

/// The position after the last character of `t[..j]` that is not whitespace.
pub open spec fn trim_end(t: Seq<char>, j: int) -> int
    decreases j,
{
    if j > 0 && is_ws(t[j - 1]) {
        trim_end(t, j - 1)
    } else {
        j
    }
}

/// `t` without leading and trailing whitespace.
pub open spec fn trim(t: Seq<char>) -> Seq<char> {
    let a = after_ws(t, 0);
    if a >= t.len() {
        seq![]
    } else {
        t.subrange(a, trim_end(t, t.len() as int))
    }
}

/// The pair on one line of a multi-line argument list: the trimmed line split
/// at its first `=`, the name trimmed. A blank line, or one without `=`, holds
/// none.
pub open spec fn line_pair(l: Seq<char>) -> Option<Pair> {
    let t = trim(l);
    let k = crate::scan::first_char(t, 0, '=');
    if t.len() > 0 && k < t.len() {
        Some((trim(t.subrange(0, k)), t.subrange(k + 1, t.len() as int)))
    } else {
        None
    }
}

/// The first position at or after `i` that holds a line break, or the length.
pub open spec fn line_end(a: Seq<char>, i: int) -> int
    decreases a.len() - i,
{
    if i < a.len() && !is_break(a[i]) {
        line_end(a, i + 1)
    } else {
        i
    }
}

pub proof fn lemma_line_end(a: Seq<char>, i: int)
    requires
        0 <= i <= a.len(),
    ensures
        i <= line_end(a, i) <= a.len(),
        forall|j: int| i <= j < line_end(a, i) ==> !is_break(#[trigger] a[j]),
        line_end(a, i) < a.len() ==> is_break(a[line_end(a, i)]),
    decreases a.len() - i,
{
    if i < a.len() && !is_break(a[i]) {
        lemma_line_end(a, i + 1);
    }
}

/// The pairs of the lines of `a` from position `i` on, one per line.
pub open spec fn multi_pairs(a: Seq<char>, i: int) -> Seq<Pair>
    decreases a.len() - i,
{
    if 0 <= i <= a.len() {
        let e = line_end(a, i);
        proof {
            lemma_line_end(a, i);
        }
        let head = match line_pair(a.subrange(i, e)) {
            Some(p) => seq![p],
            None => seq![],
        };
        if e < a.len() {
            head + multi_pairs(a, e + 1)
        } else {
            head
        }
    } else {
        seq![]
    }
}

/// The first position at or after `i` that holds whitespace or `=`, or the
/// length.
pub open spec fn after_name(a: Seq<char>, i: int) -> int
    decreases a.len() - i,
{
    if i < a.len() && !is_ws(a[i]) && a[i] != '=' {
        after_name(a, i + 1)
    } else {
        i
    }
}

/// A name (no whitespace, no `=`) followed by `=` starts at position `i`.
pub open spec fn name_eq_at(a: Seq<char>, i: int) -> bool {
    let n = after_name(a, i);
    0 <= i < n < a.len() && a[n] == '='
}

/// Position `j` holds whitespace that is followed by `name=`: where an inline
/// value ends.
pub open spec fn boundary(a: Seq<char>, j: int) -> bool {
    0 <= j < a.len() && is_ws(a[j]) && name_eq_at(a, j + 1)
}

/// Where a value that starts at `j` ends: the next boundary, or the end.
pub open spec fn value_end(a: Seq<char>, j: int) -> int
    decreases a.len() - j,
{
    if j >= a.len() {
        a.len() as int
    } else if boundary(a, j) {
        j
    } else {
        value_end(a, j + 1)
    }
}

pub proof fn lemma_after_name(a: Seq<char>, i: int)
    requires
        0 <= i <= a.len(),
    ensures
        i <= after_name(a, i) <= a.len(),
        forall|j: int| i <= j < after_name(a, i) ==> !is_ws(#[trigger] a[j]) && a[j] != '=',
        after_name(a, i) < a.len() ==> is_ws(a[after_name(a, i)]) || a[after_name(a, i)] == '=',
    decreases a.len() - i,
{
    if i < a.len() && !is_ws(a[i]) && a[i] != '=' {
        lemma_after_name(a, i + 1);
    }
}

pub proof fn lemma_value_end(a: Seq<char>, j: int)
    requires
        0 <= j <= a.len(),
    ensures
        j <= value_end(a, j) <= a.len(),
        forall|k: int| j <= k < value_end(a, j) ==> !boundary(a, k),
        value_end(a, j) < a.len() ==> boundary(a, value_end(a, j)),
    decreases a.len() - j,
{
    if j < a.len() && !boundary(a, j) {
        lemma_value_end(a, j + 1);
    }
}

/// The inline pairs of `a` from position `p` on: each starts at the start or
/// after whitespace with `name=`, and its value runs to the next boundary.
pub open spec fn inline_pairs(a: Seq<char>, p: int) -> Seq<Pair>
    decreases a.len() - p,
{
    if p < 0 || p >= a.len() {
        seq![]
    } else if (p == 0 || is_ws(a[p - 1])) && name_eq_at(a, p) {
        let n = after_name(a, p);
        let q = value_end(a, n + 1);
        proof {
            lemma_value_end(a, n + 1);
        }
        seq![(a.subrange(p, n), a.subrange(n + 1, q))] + inline_pairs(a, q)
    } else {
        inline_pairs(a, p + 1)
    }
}

/// The pairs of an argument text: one per line where it holds a line break,
/// else inline.
pub open spec fn parse_args(a: Seq<char>) -> Seq<Pair> {
    if has_break(a) {
        multi_pairs(a, 0)
    } else {
        inline_pairs(a, 0)
    }
}

/// The value of the last pair named `name`.
pub open spec fn lookup(args: Seq<Pair>, name: Seq<char>) -> Option<Seq<char>>
    decreases args.len(),
{
    if args.len() == 0 {
        None
    } else if args.last().0 == name {
        Some(args.last().1)
    } else {
        lookup(args.drop_last(), name)
    }
}

pub fn find_break(a: &Vec<char>, i: usize) -> (r: usize)
    requires
        i <= a.len(),
    ensures
        r == line_end(a@, i as int),
        i <= r <= a.len(),
{
    let mut j = i;
    while j < a.len() && a[j] != '\n' && a[j] != '\r'
        invariant
            i <= j <= a.len(),
            line_end(a@, j as int) == line_end(a@, i as int),
        decreases a.len() - j,
    {
        j = j + 1;
    }
    j
}

pub fn trimmed(t: &Vec<char>) -> (r: Vec<char>)
    ensures
        r@ == trim(t@),
{
    let a = crate::scan::skip_ws(t, 0);
    if a >= t.len() {
        return Vec::new();
    }
    let mut e = t.len();
    while e > 0 && is_whitespace(t[e - 1])
        invariant
            e <= t.len(),
            trim_end(t@, e as int) == trim_end(t@, t.len() as int),
        decreases e,
    {
        e = e - 1;
    }
    proof {
        lemma_trim_bounds(t@);
    }
    sub_chars(t, a, e)
}

proof fn lemma_trim_end(t: Seq<char>, j: int)
    requires
        0 <= j <= t.len(),
    ensures
        0 <= trim_end(t, j) <= j,
        forall|k: int| trim_end(t, j) <= k < j ==> is_ws(#[trigger] t[k]),
    decreases j,
{
    if j > 0 && is_ws(t[j - 1]) {
        lemma_trim_end(t, j - 1);
    }
}

/// Trimming keeps a run inside the text that starts and ends with a
/// non-whitespace character.
proof fn lemma_trim_bounds(t: Seq<char>)
    ensures
        after_ws(t, 0) < t.len() ==> after_ws(t, 0) < trim_end(t, t.len() as int) <= t.len(),
{
    crate::scan::lemma_after_ws_bounds(t, 0);
    lemma_trim_end(t, t.len() as int);
}

fn line_pair_of(l: &Vec<char>) -> (r: Option<(Vec<char>, Vec<char>)>)
    ensures
        match r {
            Some(p) => line_pair(l@) == Some((p.0@, p.1@)),
            None => line_pair(l@) is None,
        },
{
    let t = trimmed(l);
    let k = crate::scan::find_char(&t, 0, '=');
    if t.len() > 0 && k < t.len() {
        let name = sub_chars(&t, 0, k);
        Some((trimmed(&name), sub_chars(&t, k + 1, t.len())))
    } else {
        None
    }
}

fn has_line_break(a: &Vec<char>) -> (r: bool)
    ensures
        r == has_break(a@),
{
    let e = find_break(a, 0);
    proof {
        lemma_line_end(a@, 0);
    }
    e < a.len()
}

fn after_name_exec(a: &Vec<char>, i: usize) -> (r: usize)
    requires
        i <= a.len(),
    ensures
        r == after_name(a@, i as int),
        i <= r <= a.len(),
{
    let mut j = i;
    while j < a.len() && !is_whitespace(a[j]) && a[j] != '='
        invariant
            i <= j <= a.len(),
            after_name(a@, j as int) == after_name(a@, i as int),
        decreases a.len() - j,
    {
        j = j + 1;
    }
    j
}

fn is_name_eq_at(a: &Vec<char>, i: usize) -> (r: bool)
    requires
        i <= a.len(),
    ensures
        r == name_eq_at(a@, i as int),
{
    let n = after_name_exec(a, i);
    i < n && n < a.len() && a[n] == '='
}

fn is_boundary(a: &Vec<char>, j: usize) -> (r: bool)
    requires
        j <= a.len(),
    ensures
        r == boundary(a@, j as int),
{
    j < a.len() && is_whitespace(a[j]) && is_name_eq_at(a, j + 1)
}

fn find_value_end(a: &Vec<char>, j: usize) -> (r: usize)
    requires
        j <= a.len(),
    ensures
        r == value_end(a@, j as int),
        j <= r <= a.len(),
{
    let mut k = j;
    while k < a.len() && !is_boundary(a, k)
        invariant
            j <= k <= a.len(),
            value_end(a@, k as int) == value_end(a@, j as int),
        decreases a.len() - k,
    {
        k = k + 1;
    }
    k
}

/// Views of a list of pairs.
pub open spec fn pairs_view(v: Seq<(Vec<char>, Vec<char>)>) -> Seq<Pair> {
    v.map_values(|p: (Vec<char>, Vec<char>)| (p.0@, p.1@))
}

/// Parses the argument text of an invocation into its pairs, in order.
pub fn parse_arguments(a: &Vec<char>) -> (r: Vec<(Vec<char>, Vec<char>)>)
    ensures
        pairs_view(r@) == parse_args(a@),
{
    let mut out: Vec<(Vec<char>, Vec<char>)> = Vec::new();
    if has_line_break(a) {
        let mut i: usize = 0;
        loop
            invariant_except_break
                i <= a.len(),
                pairs_view(out@) + multi_pairs(a@, i as int) == multi_pairs(a@, 0),
            ensures
                pairs_view(out@) == multi_pairs(a@, 0),
            decreases a.len() - i,
        {
            let e = find_break(a, i);
            proof {
                lemma_line_end(a@, i as int);
            }
            let line = sub_chars(a, i, e);
            let ghost before = out@;
            let ghost head = match line_pair(line@) {
                Some(p) => seq![p],
                None => seq![],
            };
            match line_pair_of(&line) {
                Some(p) => {
                    out.push(p);
                },
                None => {},
            }
            assert(pairs_view(out@) =~= pairs_view(before) + head);
            if e >= a.len() {
                assert(pairs_view(out@) =~= multi_pairs(a@, 0));
                break;
            }
            assert(pairs_view(out@) + multi_pairs(a@, e + 1) =~= pairs_view(before) + multi_pairs(
                a@,
                i as int,
            ));
            i = e + 1;
        }
    } else {
        let mut p: usize = 0;
        while p < a.len()
            invariant
                p <= a.len(),
                pairs_view(out@) + inline_pairs(a@, p as int) == inline_pairs(a@, 0),
            decreases a.len() - p,
        {
            if (p == 0 || is_whitespace(a[p - 1])) && is_name_eq_at(a, p) {
                let n = after_name_exec(a, p);
                let q = find_value_end(a, n + 1);
                let pair = (sub_chars(a, p, n), sub_chars(a, n + 1, q));
                out.push(pair);
                p = q;
            } else {
                p = p + 1;
            }
        }
    }
    out
}

/// `name=value`.
pub open spec fn pair_text(p: Pair) -> Seq<char> {
    p.0 + seq!['='] + p.1
}

/// Pairs written on one line, separated by single spaces.
pub open spec fn inline_text(ps: Seq<Pair>) -> Seq<char>
    decreases ps.len(),
{
    if ps.len() == 0 {
        seq![]
    } else if ps.len() == 1 {
        pair_text(ps[0])
    } else {
        pair_text(ps[0]) + seq![' '] + inline_text(ps.drop_first())
    }
}

/// Pairs written one per line, each line ended by a line break.
pub open spec fn lines_text(ps: Seq<Pair>) -> Seq<char>
    decreases ps.len(),
{
    if ps.len() == 0 {
        seq![]
    } else {
        pair_text(ps[0]) + seq!['\n'] + lines_text(ps.drop_first())
    }
}

/// A pair that both layouts can write: a non-empty name without whitespace
/// or `=`, and a value without whitespace.
pub open spec fn simple_pair(p: Pair) -> bool {
    &&& p.0.len() > 0
    &&& forall|j: int| 0 <= j < p.0.len() ==> !is_ws(#[trigger] p.0[j]) && p.0[j] != '='
    &&& forall|j: int| 0 <= j < p.1.len() ==> !is_ws(#[trigger] p.1[j])
}

proof fn lemma_after_name_is(a: Seq<char>, i: int, m: int)
    requires
        0 <= i <= m <= a.len(),
        forall|j: int| i <= j < m ==> !is_ws(#[trigger] a[j]) && a[j] != '=',
        m < a.len() ==> is_ws(a[m]) || a[m] == '=',
    ensures
        after_name(a, i) == m,
{
    lemma_after_name(a, i);
    let n = after_name(a, i);
    if n < m {
        assert(!is_ws(a[n]) && a[n] != '=');
    } else if n > m {
        assert(!is_ws(a[m]) && a[m] != '=');
    }
}

proof fn lemma_value_end_is(a: Seq<char>, j: int, m: int)
    requires
        0 <= j <= m <= a.len(),
        forall|k: int| j <= k < m ==> !boundary(a, k),
        m < a.len() ==> boundary(a, m),
    ensures
        value_end(a, j) == m,
{
    lemma_value_end(a, j);
    let v = value_end(a, j);
    if v < m {
        assert(!boundary(a, v));
    } else if v > m {
        assert(!boundary(a, m));
    }
}

proof fn lemma_after_name_shift(x: Seq<char>, r: Seq<char>, j: int)
    requires
        0 <= j <= r.len(),
    ensures
        after_name(x + r, x.len() + j) == x.len() + after_name(r, j),
    decreases r.len() - j,
{
    let a = x + r;
    assert(a.len() == x.len() + r.len());
    if j < r.len() {
        assert(a[x.len() + j] == r[j]);
        lemma_after_name_shift(x, r, j + 1);
    }
}

proof fn lemma_value_end_shift(x: Seq<char>, r: Seq<char>, j: int)
    requires
        0 <= j <= r.len(),
    ensures
        value_end(x + r, x.len() + j) == x.len() + value_end(r, j),
    decreases r.len() - j,
{
    let a = x + r;
    if j < r.len() {
        assert(a[x.len() + j] == r[j]);
        lemma_after_name_shift(x, r, j + 1);
        lemma_after_name(r, j + 1);
        if after_name(r, j + 1) < r.len() {
            assert(a[x.len() + after_name(r, j + 1)] == r[after_name(r, j + 1)]);
        }
        assert(boundary(a, x.len() + j) == boundary(r, j));
        lemma_value_end_shift(x, r, j + 1);
    }
}

proof fn lemma_inline_shift(x: Seq<char>, r: Seq<char>, j: int)
    requires
        0 <= j <= r.len(),
        x.len() > 0,
        is_ws(x.last()),
    ensures
        inline_pairs(x + r, x.len() + j) == inline_pairs(r, j),
    decreases r.len() - j,
{
    let a = x + r;
    let p = x.len() + j;
    if j < r.len() {
        assert(a[p] == r[j]);
        if j == 0 {
            assert(a[p - 1] == x.last());
        } else {
            assert(a[p - 1] == r[j - 1]);
        }
        lemma_after_name_shift(x, r, j);
        lemma_after_name(r, j);
        let n = after_name(r, j);
        if n < r.len() {
            assert(a[x.len() + n] == r[n]);
        }
        if (j == 0 || is_ws(r[j - 1])) && name_eq_at(r, j) {
            lemma_value_end_shift(x, r, n + 1);
            lemma_value_end(r, n + 1);
            let q = value_end(r, n + 1);
            lemma_inline_shift(x, r, q);
            assert(a.subrange(p, x.len() + n) =~= r.subrange(j, n));
            assert(a.subrange(x.len() + n + 1, x.len() + q) =~= r.subrange(n + 1, q));
        } else {
            lemma_inline_shift(x, r, j + 1);
        }
    }
}

proof fn lemma_simple_name_eq(ps: Seq<Pair>)
    requires
        ps.len() > 0,
        simple_pair(ps[0]),
    ensures
        name_eq_at(inline_text(ps), 0),
        after_name(inline_text(ps), 0) == ps[0].0.len(),
        inline_text(ps).subrange(0, pair_text(ps[0]).len() as int) == pair_text(ps[0]),
{
    let t = inline_text(ps);
    let pt = pair_text(ps[0]);
    let n = ps[0].0;
    if ps.len() == 1 {
        assert(t == pt);
    } else {
        assert(t == pt + seq![' '] + inline_text(ps.drop_first()));
    }
    assert(t.subrange(0, pt.len() as int) =~= pt);
    assert forall|j: int| 0 <= j < n.len() implies !is_ws(#[trigger] t[j]) && t[j] != '=' by {
        assert(t[j] == pt[j]);
        assert(pt[j] == n[j]);
    }
    assert(t[n.len() as int] == pt[n.len() as int]);
    lemma_after_name_is(t, 0, n.len() as int);
}

/// Inline arguments that are simple pairs parse back to those pairs.
proof fn lemma_inline_round_trip(ps: Seq<Pair>)
    requires
        forall|k: int| 0 <= k < ps.len() ==> simple_pair(#[trigger] ps[k]),
    ensures
        inline_pairs(inline_text(ps), 0) == ps,
        !has_break(inline_text(ps)),
    decreases ps.len(),
{
    if ps.len() > 0 {
        let t = inline_text(ps);
        let p0 = ps[0];
        let pt = pair_text(p0);
        let nl = p0.0.len() as int;
        let ve = pt.len() as int;
        let rest = ps.drop_first();
        assert(simple_pair(p0));
        assert forall|k: int| 0 <= k < rest.len() implies simple_pair(#[trigger] rest[k]) by {
            assert(rest[k] == ps[k + 1]);
        }
        lemma_inline_round_trip(rest);
        lemma_simple_name_eq(ps);
        assert forall|k: int| nl + 1 <= k < ve implies !boundary(t, k) by {
            assert(t[k] == pt[k]);
            assert(pt[k] == p0.1[k - nl - 1]);
        }
        let x = pt + seq![' '];
        if ps.len() == 1 {
            assert(t == pt);
            lemma_value_end_is(t, nl + 1, ve);
            assert(inline_pairs(t, ve) == Seq::<Pair>::empty());
        } else {
            let r = inline_text(rest);
            assert(t == x + r);
            assert(t[ve] == ' ');
            lemma_simple_name_eq(rest);
            lemma_after_name_shift(x, r, 0);
            assert(t[x.len() + after_name(r, 0)] == r[after_name(r, 0)]);
            assert(boundary(t, ve));
            lemma_value_end_is(t, nl + 1, ve);
            assert(ve == 0 || !is_ws(t[ve - 1])) by {
                assert(t[ve - 1] == pt[ve - 1]);
                if p0.1.len() > 0 {
                    assert(pt[ve - 1] == p0.1[p0.1.len() - 1]);
                }
            }
            assert(after_name(t, ve) == ve) by {
                lemma_after_name_is(t, ve, ve);
            }
            assert(x.last() == ' ');
            lemma_inline_shift(x, r, 0);
            assert(inline_pairs(t, ve + 1) == rest);
            assert(inline_pairs(t, ve) == inline_pairs(t, ve + 1));
        }
        assert(t.subrange(0, nl) =~= p0.0);
        assert(t.subrange(nl + 1, ve) =~= p0.1);
        assert(inline_pairs(t, 0) =~= ps);
        assert forall|i: int| 0 <= i < t.len() implies !is_break(#[trigger] t[i]) by {
            if i < ve {
                assert(t[i] == pt[i]);
                if i > nl {
                    assert(pt[i] == p0.1[i - nl - 1]);
                } else if i < nl {
                    assert(pt[i] == p0.0[i]);
                }
            } else if ps.len() > 1 {
                let r = inline_text(rest);
                if i > ve {
                    assert(t[i] == r[i - ve - 1]);
                }
            }
        }
    }
}

proof fn lemma_line_end_shift(x: Seq<char>, r: Seq<char>, j: int)
    requires
        0 <= j <= r.len(),
    ensures
        line_end(x + r, x.len() + j) == x.len() + line_end(r, j),
    decreases r.len() - j,
{
    if j < r.len() {
        assert((x + r)[x.len() + j] == r[j]);
        lemma_line_end_shift(x, r, j + 1);
    }
}

proof fn lemma_multi_shift(x: Seq<char>, r: Seq<char>, j: int)
    requires
        0 <= j <= r.len(),
    ensures
        multi_pairs(x + r, x.len() + j) == multi_pairs(r, j),
    decreases r.len() - j,
{
    let a = x + r;
    lemma_line_end_shift(x, r, j);
    lemma_line_end(r, j);
    let e = line_end(r, j);
    assert(a.subrange(x.len() + j, x.len() + e) =~= r.subrange(j, e));
    if e < r.len() {
        lemma_multi_shift(x, r, e + 1);
    }
}

proof fn lemma_first_char_is(t: Seq<char>, i: int, m: int)
    requires
        0 <= i <= m < t.len(),
        t[m] == '=',
        forall|j: int| i <= j < m ==> #[trigger] t[j] != '=',
    ensures
        crate::scan::first_char(t, i, '=') == m,
    decreases m - i,
{
    if i < m {
        lemma_first_char_is(t, i + 1, m);
    }
}

/// A simple pair on a line of its own reads back as itself.
proof fn lemma_line_pair(p: Pair)
    requires
        simple_pair(p),
    ensures
        line_pair(pair_text(p)) == Some(p),
{
    let t = pair_text(p);
    let nl = p.0.len() as int;
    assert(t[0] == p.0[0]);
    assert(!is_ws(t[0]));
    assert(after_ws(t, 0) == 0);
    assert(!is_ws(t[t.len() - 1])) by {
        if p.1.len() > 0 {
            assert(t[t.len() - 1] == p.1[p.1.len() - 1]);
        } else {
            assert(t[t.len() - 1] == '=');
        }
    }
    assert(trim_end(t, t.len() as int) == t.len());
    assert(trim(t) =~= t);
    assert forall|j: int| 0 <= j < nl implies #[trigger] t[j] != '=' by {
        assert(t[j] == p.0[j]);
    }
    lemma_first_char_is(t, 0, nl);
    let n = t.subrange(0, nl);
    assert(n =~= p.0);
    assert(n[0] == p.0[0]);
    assert(after_ws(n, 0) == 0);
    assert(n[n.len() - 1] == p.0[nl - 1]);
    assert(trim_end(n, n.len() as int) == n.len());
    assert(trim(n) =~= p.0);
    assert(t.subrange(nl + 1, t.len() as int) =~= p.1);
}

/// Arguments written one per line that are simple pairs parse back to those
/// pairs.
proof fn lemma_lines_round_trip(ps: Seq<Pair>)
    requires
        forall|k: int| 0 <= k < ps.len() ==> simple_pair(#[trigger] ps[k]),
    ensures
        multi_pairs(lines_text(ps), 0) == ps,
    decreases ps.len(),
{
    if ps.len() > 0 {
        let t = lines_text(ps);
        let p0 = ps[0];
        let pt = pair_text(p0);
        let rest = ps.drop_first();
        let r = lines_text(rest);
        let x = pt + seq!['\n'];
        assert(t == x + r);
        assert(simple_pair(p0));
        assert forall|k: int| 0 <= k < rest.len() implies simple_pair(#[trigger] rest[k]) by {
            assert(rest[k] == ps[k + 1]);
        }
        lemma_lines_round_trip(rest);
        let nl = p0.0.len() as int;
        assert forall|j: int| 0 <= j < pt.len() implies !is_break(#[trigger] t[j]) by {
            assert(t[j] == pt[j]);
            if j < nl {
                assert(pt[j] == p0.0[j]);
            } else if j > nl {
                assert(pt[j] == p0.1[j - nl - 1]);
            }
        }
        assert(t[pt.len() as int] == '\n');
        lemma_line_end(t, 0);
        let e = line_end(t, 0);
        if e < pt.len() {
            assert(!is_break(t[e]));
        }
        assert(e == pt.len());
        assert(t.subrange(0, e) =~= pt);
        lemma_line_pair(p0);
        lemma_multi_shift(x, r, 0);
        assert(multi_pairs(t, 0) =~= ps);
    }
}

/// The two layouts of an argument list agree: simple pairs written one per
/// line parse exactly as the same pairs written on one line, and both give
/// back the pairs, in order.
pub proof fn lemma_layouts_agree(ps: Seq<Pair>)
    requires
        ps.len() > 0,
        forall|k: int| 0 <= k < ps.len() ==> simple_pair(#[trigger] ps[k]),
    ensures
        parse_args(lines_text(ps)) == parse_args(inline_text(ps)),
        parse_args(inline_text(ps)) == ps,
{
    lemma_inline_round_trip(ps);
    lemma_lines_round_trip(ps);
    let t = lines_text(ps);
    let pt = pair_text(ps[0]);
    assert(t == pt + seq!['\n'] + lines_text(ps.drop_first()));
    assert(t[pt.len() as int] == '\n');
    assert(has_break(t));
}

/// What an invocation found in a text asks for.
pub enum LinkKind {
    /// `\{{#...}}`: emitted without the backslash, never expanded.
    Escaped,
    /// `{{#template path args}}`: the file at `path`, with these arguments.
    Template { path: Seq<char>, args: Seq<Pair> },
}

/// An invocation found in a text: where it starts and ends, its text, and
/// what it asks for.
pub struct LinkSpec {
    pub start: int,
    pub end: int,
    pub text: Seq<char>,
    pub kind: LinkKind,
}

/// The invocation that starts at position `i` of `s`, if any.
pub open spec fn link_at(s: Seq<char>, i: int) -> Option<LinkSpec> {
    match shape_at(template_grammar(), s, i) {
        Some(ShapeSpec::Escaped { end }) => Some(
            LinkSpec { start: i, end, text: s.subrange(i, end), kind: LinkKind::Escaped },
        ),
        Some(ShapeSpec::Bare { name_start, name_end, end }) => Some(
            LinkSpec {
                start: i,
                end,
                text: s.subrange(i, end),
                kind: LinkKind::Template { path: s.subrange(name_start, name_end), args: seq![] },
            },
        ),
        Some(ShapeSpec::WithText { name_start, name_end, text_start, text_end, end }) => Some(
            LinkSpec {
                start: i,
                end,
                text: s.subrange(i, end),
                kind: LinkKind::Template {
                    path: s.subrange(name_start, name_end),
                    args: parse_args(s.subrange(text_start, text_end)),
                },
            },
        ),
        None => None,
    }
}

/// An invocation found at `i` ends after it, inside the text.
pub proof fn lemma_link_at(s: Seq<char>, i: int)
    requires
        0 <= i < s.len(),
    ensures
        link_at(s, i) matches Some(l) ==> l.start == i && i < l.end <= s.len() && l.text
            == s.subrange(i, l.end),
{
    reveal_strlit("#template");
    lemma_shape_wf(template_grammar(), s, i);
}

/// The invocations of `s` from position `i` on, left to right: at each
/// position either an invocation starts, and the search goes on after it, or
/// the search goes on at the next position.
pub open spec fn links_from(s: Seq<char>, i: int) -> Seq<LinkSpec>
    decreases s.len() - i,
{
    if 0 <= i < s.len() {
        match link_at(s, i) {
            Some(l) => {
                proof {
                    lemma_link_at(s, i);
                }
                seq![l] + links_from(s, l.end)
            },
            None => links_from(s, i + 1),
        }
    } else {
        seq![]
    }
}

/// The invocations of `s`.
pub open spec fn links_of(s: Seq<char>) -> Seq<LinkSpec> {
    links_from(s, 0)
}

/// The invocations `ls` lie inside `s[from..]`, in order and without
/// overlap, and the text of each is the part of `s` that it spans.
pub open spec fn well_placed(s: Seq<char>, ls: Seq<LinkSpec>, from: int) -> bool {
    &&& forall|k: int|
        0 <= k < ls.len() ==> from <= (#[trigger] ls[k]).start < ls[k].end <= s.len() && ls[k].text
            == s.subrange(ls[k].start, ls[k].end)
    &&& forall|k: int| 0 <= k < ls.len() - 1 ==> (#[trigger] ls[k]).end <= ls[k + 1].start
}

/// The invocations found from position `i` on are well placed in `s[i..]`.
pub proof fn lemma_links_well_placed(s: Seq<char>, i: int)
    requires
        0 <= i <= s.len(),
    ensures
        well_placed(s, links_from(s, i), i),
    decreases s.len() - i,
{
    if i < s.len() {
        lemma_link_at(s, i);
        match link_at(s, i) {
            Some(l) => {
                lemma_links_well_placed(s, l.end);
                let rest = links_from(s, l.end);
                let ls = links_from(s, i);
                assert(ls == seq![l] + rest);
                assert forall|k: int| 0 <= k < ls.len() - 1 implies (#[trigger] ls[k]).end <= ls[k
                    + 1].start by {
                    if k > 0 {
                        assert(ls[k] == rest[k - 1]);
                    }
                }
            },
            None => {
                lemma_links_well_placed(s, i + 1);
            },
        }
    }
}

/// What an invocation asks for.
#[derive(Debug, PartialEq, Eq)]
pub enum LinkType {
    Escaped,
    Template(String),
}

/// An invocation found in a text. Positions count characters.
#[derive(Debug, PartialEq, Eq)]
pub struct Link {
    pub start_index: usize,
    pub end_index: usize,
    pub link_type: LinkType,
    pub link_text: String,
    pub args: Vec<(Vec<char>, Vec<char>)>,
}

impl View for Link {
    type V = LinkSpec;

    open spec fn view(&self) -> LinkSpec {
        LinkSpec {
            start: self.start_index as int,
            end: self.end_index as int,
            text: self.link_text@,
            kind: match self.link_type {
                LinkType::Escaped => LinkKind::Escaped,
                LinkType::Template(path) => LinkKind::Template {
                    path: path@,
                    args: pairs_view(self.args@),
                },
            },
        }
    }
}

impl Link {
    /// The arguments of the invocation as strings, in the order written.
    pub fn arg_strings(&self) -> (r: Vec<(String, String)>)
        ensures
            r.len() == self.args.len(),
            forall|k: int|
                0 <= k < r.len() ==> (#[trigger] r@[k]).0@ == self.args@[k].0@ && r@[k].1@
                    == self.args@[k].1@,
            self@.kind matches LinkKind::Template { args, .. } ==> args.len() == r.len() && forall|
                k: int,
            |
                0 <= k < r.len() ==> (#[trigger] r@[k]).0@ == args[k].0 && r@[k].1@ == args[k].1,
    {
        let mut out: Vec<(String, String)> = Vec::new();
        let mut k: usize = 0;
        while k < self.args.len()
            invariant
                k <= self.args.len(),
                out.len() == k,
                forall|j: int|
                    0 <= j < k ==> (#[trigger] out@[j]).0@ == self.args@[j].0@ && out@[j].1@
                        == self.args@[j].1@,
            decreases self.args.len() - k,
        {
            let pair = (string_of(&self.args[k].0), string_of(&self.args[k].1));
            out.push(pair);
            k = k + 1;
        }
        out
    }
}

/// The invocation that starts at position `i` of `s`, if any.
pub fn link_at_exec(m: &Matcher, s: &Vec<char>, i: usize) -> (r: Option<Link>)
    requires
        i < s.len(),
        m@ == template_grammar(),
    ensures
        match r {
            Some(l) => link_at(s@, i as int) == Some(l@),
            None => link_at(s@, i as int) is None,
        },
{
    proof {
        reveal_strlit("#template");
        lemma_shape_wf(template_grammar(), s@, i as int);
    }
    match m.shape_at(s, i) {
        Some(Shape::Escaped { end }) => Some(
            Link {
                start_index: i,
                end_index: end,
                link_type: LinkType::Escaped,
                link_text: string_of(&sub_chars(s, i, end)),
                args: Vec::new(),
            },
        ),
        Some(Shape::Bare { name_start, name_end, end }) => {
            let l = Link {
                start_index: i,
                end_index: end,
                link_type: LinkType::Template(string_of(&sub_chars(s, name_start, name_end))),
                link_text: string_of(&sub_chars(s, i, end)),
                args: Vec::new(),
            };
            assert(pairs_view(l.args@) =~= seq![]);
            Some(l)
        },
        Some(Shape::WithText { name_start, name_end, text_start, text_end, end }) => {
            let args = parse_arguments(&sub_chars(s, text_start, text_end));
            Some(
                Link {
                    start_index: i,
                    end_index: end,
                    link_type: LinkType::Template(string_of(&sub_chars(s, name_start, name_end))),
                    link_text: string_of(&sub_chars(s, i, end)),
                    args,
                },
            )
        },
        None => None,
    }
}

/// Views of a list of invocations.
pub open spec fn links_view(v: Seq<Link>) -> Seq<LinkSpec> {
    v.map_values(|l: Link| l@)
}

/// The invocations of `contents`, left to right and without overlap.
pub fn extract_template_links(contents: &str) -> (r: Vec<Link>)
    ensures
        links_view(r@) == links_of(contents@),
{
    let s = crate::text::chars_of(contents);
    let m = Matcher::template();
    let mut out: Vec<Link> = Vec::new();
    let mut i: usize = 0;
    while i < s.len()
        invariant
            i <= s.len(),
            m@ == template_grammar(),
            s@ == contents@,
            links_view(out@) + links_from(s@, i as int) == links_of(s@),
        decreases s.len() - i,
    {
        match link_at_exec(&m, &s, i) {
            Some(l) => {
                proof {
                    lemma_link_at(s@, i as int);
                }
                let ghost before = out@;
                let next = l.end_index;
                out.push(l);
                assert(links_view(out@) =~= links_view(before).push(l@));
                assert(links_view(out@) + links_from(s@, next as int) =~= links_view(before)
                    + links_from(s@, i as int));
                i = next;
            },
            None => {
                i = i + 1;
            },
        }
    }
    assert(links_view(out@) =~= links_of(s@));
    out
}

} // verus!
