//! The marker grammar shared by template invocations and placeholders.
//!
//! Both markers have the same shape: two opening delimiters, optional
//! whitespace, a keyword, a name run (a non-empty run of non-whitespace
//! characters), and either two closing delimiters or a text part that runs to
//! the first closing delimiter. A backslash followed by two opening delimiters
//! and `#` starts an escaped marker, which ends at the first pair of closing
//! delimiters.
//!
//! All positions are character positions.
use crate::text::{is_whitespace, is_ws};
use vstd::prelude::*;

verus! {

/// A marker grammar: which delimiters enclose it, the keyword that follows the
/// opening delimiters, and whether whitespace must separate the keyword from
/// the name run.
pub struct Grammar {
    pub open: char,
    pub close: char,
    pub keyword: Seq<char>,
    pub spaced: bool,
}

/// Where a marker found at some position ends, and where its parts lie.
pub enum ShapeSpec {
    Escaped { end: int },
    Bare { name_start: int, name_end: int, end: int },
    WithText { name_start: int, name_end: int, text_start: int, text_end: int, end: int },
}

impl ShapeSpec {
    pub open spec fn end(self) -> int {
        match self {
            ShapeSpec::Escaped { end } => end,
            ShapeSpec::Bare { end, .. } => end,
            ShapeSpec::WithText { end, .. } => end,
        }
    }
}

/// `s` holds the word `w` at position `i`.
pub open spec fn word_at(s: Seq<char>, i: int, w: Seq<char>) -> bool {
    0 <= i && i + w.len() <= s.len() && s.subrange(i, i + w.len()) == w
}

/// `s` holds two `c` at positions `i` and `i + 1`.
pub open spec fn pair_at(s: Seq<char>, i: int, c: char) -> bool {
    0 <= i && i + 1 < s.len() && s[i] == c && s[i + 1] == c
}

/// The first position at or after `i` that holds no whitespace, or the length.
pub open spec fn after_ws(s: Seq<char>, i: int) -> int
    decreases s.len() - i,
{
    if i < s.len() && is_ws(s[i]) {
        after_ws(s, i + 1)
    } else {
        i
    }
}

/// The first position at or after `i` that holds whitespace, or the length.
pub open spec fn after_run(s: Seq<char>, i: int) -> int
    decreases s.len() - i,
{
    if i < s.len() && !is_ws(s[i]) {
        after_run(s, i + 1)
    } else {
        i
    }
}

/// The first position at or after `i` that holds `c`, or the length.
pub open spec fn first_char(s: Seq<char>, i: int, c: char) -> int
    decreases s.len() - i,
{
    if i < s.len() && s[i] != c {
        first_char(s, i + 1, c)
    } else {
        i
    }
}

/// The first position at or after `i` where a pair of `c` starts, or the length.
pub open spec fn first_pair(s: Seq<char>, i: int, c: char) -> int
    decreases s.len() - i,
{
    if i >= s.len() {
        s.len() as int
    } else if pair_at(s, i, c) {
        i
    } else {
        first_pair(s, i + 1, c)
    }
}

/// The last position in `[lo, hi]` where a pair of `c` starts, or `lo - 1`.
pub open spec fn last_pair(s: Seq<char>, lo: int, hi: int, c: char) -> int
    decreases hi - lo + 1,
{
    if hi < lo {
        lo - 1
    } else if pair_at(s, hi, c) {
        hi
    } else {
        last_pair(s, lo, hi - 1, c)
    }
}

/// Where the name run of an unescaped marker at `i` starts.
pub open spec fn name_start(g: Grammar, s: Seq<char>, i: int) -> Option<int> {
    if word_at(s, i, seq![g.open, g.open]) {
        let k = after_ws(s, i + 2);
        let p0 = k + g.keyword.len();
        if word_at(s, k, g.keyword) {
            if g.spaced {
                let p = after_ws(s, p0);
                if p0 < p && p < s.len() {
                    Some(p)
                } else {
                    None
                }
            } else if p0 < s.len() && !is_ws(s[p0]) {
                Some(p0)
            } else {
                None
            }
        } else {
            None
        }
    } else {
        None
    }
}

/// A marker without a text part: the name run is followed by optional
/// whitespace and the closing pair, or else it is cut at the last closing pair
/// inside it. Gives the end of the name and of the marker.
pub open spec fn bare_close(g: Grammar, s: Seq<char>, p: int) -> Option<(int, int)> {
    let r = after_run(s, p);
    let q = after_ws(s, r);
    if pair_at(s, q, g.close) {
        Some((r, q + 2))
    } else {
        let k = last_pair(s, p + 1, r - 2, g.close);
        if k >= p + 1 {
            Some((k, k + 2))
        } else {
            None
        }
    }
}

/// A marker with a text part: the whole name run, whitespace, then text that
/// runs to the first closing delimiter, which must be doubled. Gives the
/// bounds of the text and the end of the marker.
pub open spec fn text_close(g: Grammar, s: Seq<char>, p: int) -> Option<(int, int, int)> {
    let r = after_run(s, p);
    let q = after_ws(s, r);
    if r < q && q < s.len() && s[q] != g.close {
        let f = first_char(s, q, g.close);
        if f + 1 < s.len() && s[f + 1] == g.close {
            Some((q, f, f + 2))
        } else {
            None
        }
    } else {
        None
    }
}

/// The marker that starts at position `i` of `s`, if any.
pub open spec fn shape_at(g: Grammar, s: Seq<char>, i: int) -> Option<ShapeSpec> {
    if 0 <= i < s.len() && s[i] == '\\' {
        if word_at(s, i + 1, seq![g.open, g.open, '#']) {
            let e = first_pair(s, i + 4, g.close);
            if e < s.len() {
                Some(ShapeSpec::Escaped { end: e + 2 })
            } else {
                None
            }
        } else {
            None
        }
    } else {
        match name_start(g, s, i) {
            Some(p) => match bare_close(g, s, p) {
                Some((n, e)) => Some(ShapeSpec::Bare { name_start: p, name_end: n, end: e }),
                None => match text_close(g, s, p) {
                    Some((ts, te, e)) => Some(
                        ShapeSpec::WithText {
                            name_start: p,
                            name_end: after_run(s, p),
                            text_start: ts,
                            text_end: te,
                            end: e,
                        },
                    ),
                    None => None,
                },
            },
            None => None,
        }
    }
}

/// The name run of a marker lies inside it, is not empty, and the marker ends
/// after it.
pub open spec fn shape_wf(sh: ShapeSpec, i: int, len: int) -> bool {
    match sh {
        ShapeSpec::Escaped { end } => i + 4 <= end <= len,
        ShapeSpec::Bare { name_start, name_end, end } => i < name_start < name_end && name_end
            + 2 <= end <= len,
        ShapeSpec::WithText { name_start, name_end, text_start, text_end, end } => i < name_start
            < name_end < text_start < text_end && text_end + 2 == end <= len,
    }
}

pub proof fn lemma_after_ws_bounds(s: Seq<char>, i: int)
    requires
        0 <= i <= s.len(),
    ensures
        i <= after_ws(s, i) <= s.len(),
        after_ws(s, i) < s.len() ==> !is_ws(s[after_ws(s, i)]),
    decreases s.len() - i,
{
    if i < s.len() && is_ws(s[i]) {
        lemma_after_ws_bounds(s, i + 1);
    }
}

proof fn lemma_after_run_bounds(s: Seq<char>, i: int)
    requires
        0 <= i <= s.len(),
    ensures
        i <= after_run(s, i) <= s.len(),
        i < s.len() && !is_ws(s[i]) ==> i < after_run(s, i),
        forall|j: int| i <= j < after_run(s, i) ==> !is_ws(#[trigger] s[j]),
    decreases s.len() - i,
{
    if i < s.len() && !is_ws(s[i]) {
        lemma_after_run_bounds(s, i + 1);
    }
}

proof fn lemma_first_char_bounds(s: Seq<char>, i: int, c: char)
    requires
        0 <= i <= s.len(),
    ensures
        i <= first_char(s, i, c) <= s.len(),
        first_char(s, i, c) < s.len() ==> s[first_char(s, i, c)] == c,
        forall|j: int| i <= j < first_char(s, i, c) ==> #[trigger] s[j] != c,
    decreases s.len() - i,
{
    if i < s.len() && s[i] != c {
        lemma_first_char_bounds(s, i + 1, c);
    }
}

proof fn lemma_first_pair_bounds(s: Seq<char>, i: int, c: char)
    requires
        0 <= i,
    ensures
        first_pair(s, i, c) == s.len() || (i <= first_pair(s, i, c) && pair_at(
            s,
            first_pair(s, i, c),
            c,
        )),
    decreases s.len() - i,
{
    if i < s.len() && !pair_at(s, i, c) {
        lemma_first_pair_bounds(s, i + 1, c);
    }
}

proof fn lemma_last_pair_bounds(s: Seq<char>, lo: int, hi: int, c: char)
    ensures
        last_pair(s, lo, hi, c) == lo - 1 || (lo <= last_pair(s, lo, hi, c) <= hi && pair_at(
            s,
            last_pair(s, lo, hi, c),
            c,
        )),
    decreases hi - lo + 1,
{
    if hi >= lo && !pair_at(s, hi, c) {
        lemma_last_pair_bounds(s, lo, hi - 1, c);
    }
}

/// Every marker that the grammar finds is well formed.
pub proof fn lemma_shape_wf(g: Grammar, s: Seq<char>, i: int)
    requires
        0 <= i < s.len(),
        g.keyword.len() >= 1,
    ensures
        shape_at(g, s, i) matches Some(sh) ==> shape_wf(sh, i, s.len() as int),
{
    if s[i] == '\\' {
        lemma_first_pair_bounds(s, i + 4, g.close);
    } else if word_at(s, i, seq![g.open, g.open]) {
        let k = after_ws(s, i + 2);
        lemma_after_ws_bounds(s, i + 2);
        let p0 = k + g.keyword.len();
        if word_at(s, k, g.keyword) {
            lemma_after_ws_bounds(s, p0);
            if let Some(p) = name_start(g, s, i) {
                let r = after_run(s, p);
                lemma_after_run_bounds(s, p);
                let q = after_ws(s, r);
                lemma_after_ws_bounds(s, r);
                lemma_last_pair_bounds(s, p + 1, r - 2, g.close);
                if !pair_at(s, q, g.close) && last_pair(s, p + 1, r - 2, g.close) < p + 1 {
                    lemma_first_char_bounds(s, q, g.close);
                }
            }
        }
    }
}

/// A marker grammar ready for matching.
pub struct Matcher {
    pub open: char,
    pub close: char,
    pub keyword: Vec<char>,
    pub spaced: bool,
}

impl View for Matcher {
    type V = Grammar;

    open spec fn view(&self) -> Grammar {
        Grammar { open: self.open, close: self.close, keyword: self.keyword@, spaced: self.spaced }
    }
}

/// A marker found by a `Matcher`, with the positions of its parts.
pub enum Shape {
    Escaped { end: usize },
    Bare { name_start: usize, name_end: usize, end: usize },
    WithText { name_start: usize, name_end: usize, text_start: usize, text_end: usize, end: usize },
}

impl View for Shape {
    type V = ShapeSpec;

    open spec fn view(&self) -> ShapeSpec {
        match *self {
            Shape::Escaped { end } => ShapeSpec::Escaped { end: end as int },
            Shape::Bare { name_start, name_end, end } => ShapeSpec::Bare {
                name_start: name_start as int,
                name_end: name_end as int,
                end: end as int,
            },
            Shape::WithText { name_start, name_end, text_start, text_end, end } =>
                ShapeSpec::WithText {
                name_start: name_start as int,
                name_end: name_end as int,
                text_start: text_start as int,
                text_end: text_end as int,
                end: end as int,
            },
        }
    }
}

impl Shape {
    pub fn end(&self) -> (r: usize)
        ensures
            r == self@.end(),
    {
        match *self {
            Shape::Escaped { end } => end,
            Shape::Bare { end, .. } => end,
            Shape::WithText { end, .. } => end,
        }
    }
}

pub fn has_word(s: &Vec<char>, i: usize, w: &Vec<char>) -> (r: bool)
    ensures
        r == word_at(s@, i as int, w@),
{
    if i > s.len() || w.len() > s.len() - i {
        return false;
    }
    let mut j: usize = 0;
    while j < w.len()
        invariant
            j <= w.len(),
            i + w.len() <= s.len(),
            forall|k: int| 0 <= k < j ==> s@[i + k] == w@[k],
        decreases w.len() - j,
    {
        if s[i + j] != w[j] {
            assert(s@.subrange(i as int, i + w.len())[j as int] != w@[j as int]);
            return false;
        }
        j = j + 1;
    }
    assert(s@.subrange(i as int, i + w.len()) =~= w@);
    true
}

pub fn has_pair(s: &Vec<char>, i: usize, c: char) -> (r: bool)
    ensures
        r == pair_at(s@, i as int, c),
{
    i < s.len() && s.len() - i > 1 && s[i] == c && s[i + 1] == c
}

pub fn skip_ws(s: &Vec<char>, i: usize) -> (r: usize)
    requires
        i <= s.len(),
    ensures
        r == after_ws(s@, i as int),
        i <= r <= s.len(),
{
    let mut j = i;
    while j < s.len() && is_whitespace(s[j])
        invariant
            i <= j <= s.len(),
            after_ws(s@, j as int) == after_ws(s@, i as int),
        decreases s.len() - j,
    {
        j = j + 1;
    }
    j
}

pub fn skip_run(s: &Vec<char>, i: usize) -> (r: usize)
    requires
        i <= s.len(),
    ensures
        r == after_run(s@, i as int),
        i <= r <= s.len(),
{
    let mut j = i;
    while j < s.len() && !is_whitespace(s[j])
        invariant
            i <= j <= s.len(),
            after_run(s@, j as int) == after_run(s@, i as int),
        decreases s.len() - j,
    {
        j = j + 1;
    }
    j
}

pub fn find_char(s: &Vec<char>, i: usize, c: char) -> (r: usize)
    requires
        i <= s.len(),
    ensures
        r == first_char(s@, i as int, c),
        i <= r <= s.len(),
{
    let mut j = i;
    while j < s.len() && s[j] != c
        invariant
            i <= j <= s.len(),
            first_char(s@, j as int, c) == first_char(s@, i as int, c),
        decreases s.len() - j,
    {
        j = j + 1;
    }
    j
}

pub fn find_pair(s: &Vec<char>, i: usize, c: char) -> (r: usize)
    ensures
        r == first_pair(s@, i as int, c),
{
    let mut j = i;
    while j < s.len() && !has_pair(s, j, c)
        invariant
            i <= j,
            first_pair(s@, j as int, c) == first_pair(s@, i as int, c),
        decreases s.len() - j,
    {
        j = j + 1;
    }
    if j >= s.len() {
        s.len()
    } else {
        j
    }
}

/// The last position in `[lo, hi)` where a pair of `c` starts, or `lo - 1`.
pub fn find_last_pair(s: &Vec<char>, lo: usize, hi: usize, c: char) -> (r: Option<usize>)
    requires
        1 <= lo,
    ensures
        match r {
            Some(k) => k as int == last_pair(s@, lo as int, hi - 1, c) && lo <= k < hi,
            None => last_pair(s@, lo as int, hi - 1, c) == lo - 1,
        },
{
    let mut j = hi;
    while j > lo && !has_pair(s, j - 1, c)
        invariant
            lo <= hi ==> lo <= j <= hi,
            lo > hi ==> j == hi,
            last_pair(s@, lo as int, j - 1, c) == last_pair(s@, lo as int, hi - 1, c),
        decreases j,
    {
        j = j - 1;
    }
    if j > lo {
        Some(j - 1)
    } else {
        None
    }
}

impl Matcher {
    /// The grammar of template invocations: `{{ #template path args }}`.
    pub fn template() -> (r: Matcher)
        ensures
            r@ == template_grammar(),
    {
        Matcher { open: '{', close: '}', keyword: crate::text::chars_of("#template"), spaced: true }
    }

    /// The grammar of placeholders: `[[ #name default ]]`.
    pub fn placeholder() -> (r: Matcher)
        ensures
            r@ == placeholder_grammar(),
    {
        Matcher { open: '[', close: ']', keyword: crate::text::chars_of("#"), spaced: false }
    }

    fn name_start(&self, s: &Vec<char>, i: usize) -> (r: Option<usize>)
        requires
            i < s.len(),
        ensures
            match r {
                Some(p) => name_start(self@, s@, i as int) == Some(p as int) && i + 2 <= p < s.len(),
                None => name_start(self@, s@, i as int) is None,
            },
    {
        let opening = vec![self.open, self.open];
        assert(opening@ =~= seq![self.open, self.open]);
        if !has_word(s, i, &opening) {
            return None;
        }
        let k = skip_ws(s, i + 2);
        if !has_word(s, k, &self.keyword) {
            return None;
        }
        let p0 = k + self.keyword.len();
        if self.spaced {
            let p = skip_ws(s, p0);
            if p0 < p && p < s.len() {
                Some(p)
            } else {
                None
            }
        } else if p0 < s.len() && !is_whitespace(s[p0]) {
            Some(p0)
        } else {
            None
        }
    }

    /// The marker that starts at position `i` of `s`, if any.
    pub fn shape_at(&self, s: &Vec<char>, i: usize) -> (r: Option<Shape>)
        requires
            i < s.len(),
        ensures
            match r {
                Some(sh) => shape_at(self@, s@, i as int) == Some(sh@),
                None => shape_at(self@, s@, i as int) is None,
            },
    {
        if s[i] == '\\' {
            let escape = vec![self.open, self.open, '#'];
            assert(escape@ =~= seq![self.open, self.open, '#']);
            if has_word(s, i + 1, &escape) {
                let e = find_pair(s, i + 4, self.close);
                proof {
                    lemma_first_pair_bounds(s@, i + 4, self.close);
                }
                if e < s.len() {
                    return Some(Shape::Escaped { end: e + 2 });
                }
            }
            return None;
        }
        let p = match self.name_start(s, i) {
            Some(p) => p,
            None => {
                return None;
            },
        };
        let r = skip_run(s, p);
        let q = skip_ws(s, r);
        if has_pair(s, q, self.close) {
            return Some(Shape::Bare { name_start: p, name_end: r, end: q + 2 });
        }
        match find_last_pair(s, p + 1, r - 1, self.close) {
            Some(k) => {
                return Some(Shape::Bare { name_start: p, name_end: k, end: k + 2 });
            },
            None => {},
        }
        if r < q && q < s.len() && s[q] != self.close {
            let f = find_char(s, q, self.close);
            if s.len() - f > 1 && s[f + 1] == self.close {
                return Some(
                    Shape::WithText { name_start: p, name_end: r, text_start: q, text_end: f, end: f + 2 },
                );
            }
        }
        None
    }
}

pub open spec fn template_grammar() -> Grammar {
    Grammar { open: '{', close: '}', keyword: "#template"@, spaced: true }
}

pub open spec fn placeholder_grammar() -> Grammar {
    Grammar { open: '[', close: ']', keyword: "#"@, spaced: false }
}

} // verus!
