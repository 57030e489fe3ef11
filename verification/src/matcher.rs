//! The fuzzy matcher: decides whether any line of a stored text
//! approximately contains a query, by sliding a window of the query's length
//! over each trimmed line and taking the minimum Levenshtein distance.
//!
//! A line matches when that minimum distance is below a quarter of the
//! query's length; a stored page matches when at least one of its lines
//! does.

use vstd::prelude::*;
use crate::engine::{Link, LinkView, links_views};
use crate::lexer::whitespace_end;
use crate::text::{char_is_whitespace, chars_of, is_whitespace_char, string_from_chars, subvec};

verus! {

/// The smaller of two values.
pub open spec fn min2(a: int, b: int) -> int {
    if a <= b {
        a
    } else {
        b
    }
}

/// The smallest of three values.
pub open spec fn min3(a: int, b: int, c: int) -> int {
    min2(min2(a, b), c)
}

/// Classic Levenshtein distance: the least number of unit-cost insertions,
/// deletions and substitutions turning `a` into `b`.
pub open spec fn edit_distance(a: Seq<char>, b: Seq<char>) -> int
    decreases a.len(), b.len(),
{
    if a.len() == 0 {
        b.len() as int
    } else if b.len() == 0 {
        a.len() as int
    } else if a.last() == b.last() {
        edit_distance(a.drop_last(), b.drop_last())
    } else {
        1 + min3(
            edit_distance(a.drop_last(), b),
            edit_distance(a, b.drop_last()),
            edit_distance(a.drop_last(), b.drop_last()),
        )
    }
}

/// The distance is never negative and never exceeds the longer length.
pub proof fn lemma_edit_distance_bounds(a: Seq<char>, b: Seq<char>)
    ensures
        0 <= edit_distance(a, b),
        edit_distance(a, b) <= (if a.len() >= b.len() {
            a.len() as int
        } else {
            b.len() as int
        }),
    decreases a.len(), b.len(),
{
    if a.len() == 0 || b.len() == 0 {
    } else {
        lemma_edit_distance_bounds(a.drop_last(), b.drop_last());
        lemma_edit_distance_bounds(a.drop_last(), b);
        lemma_edit_distance_bounds(a, b.drop_last());
    }
}

/// Computes the Levenshtein distance by the full dynamic-programming table of
/// size `(|a|+1) x (|b|+1)`, whose entry `(i, j)` is the distance between the
/// length-`i` prefix of `a` and the length-`j` prefix of `b`. The length
/// bounds are machine limits: the table carries one extra row and column.
pub fn levenshtein(a: &Vec<char>, b: &Vec<char>) -> (r: usize)
    requires
        a@.len() < usize::MAX,
        b@.len() < usize::MAX,
    ensures
        r as int == edit_distance(a@, b@),
{
    let rows = a.len() + 1;
    let cols = b.len() + 1;
    let mut table: Vec<Vec<usize>> = Vec::new();
    let mut i: usize = 0;
    while i < rows
        invariant
            rows == a@.len() + 1,
            cols == b@.len() + 1,
            a@.len() < usize::MAX,
            b@.len() < usize::MAX,
            0 <= i <= rows,
            table@.len() == i,
            forall|k: int, l: int|
                0 <= k < i && 0 <= l < cols ==> #[trigger] table@[k]@[l] as int == edit_distance(
                    a@.take(k),
                    b@.take(l),
                ),
            forall|k: int| 0 <= k < i ==> (#[trigger] table@[k])@.len() == cols,
        decreases rows - i,
    {
        let mut row: Vec<usize> = Vec::new();
        let mut j: usize = 0;
        while j < cols
            invariant
                rows == a@.len() + 1,
                cols == b@.len() + 1,
                a@.len() < usize::MAX,
                b@.len() < usize::MAX,
                0 <= i < rows,
                0 <= j <= cols,
                table@.len() == i,
                row@.len() == j,
                forall|k: int, l: int|
                    0 <= k < i && 0 <= l < cols ==> #[trigger] table@[k]@[l] as int
                        == edit_distance(a@.take(k), b@.take(l)),
                forall|k: int| 0 <= k < i ==> (#[trigger] table@[k])@.len() == cols,
                forall|l: int|
                    0 <= l < j ==> #[trigger] row@[l] as int == edit_distance(
                        a@.take(i as int),
                        b@.take(l),
                    ),
            decreases cols - j,
        {
            proof {
                lemma_edit_distance_bounds(a@.take(i as int), b@.take(j as int));
                if i > 0 && j > 0 {
                    assert(a@.take(i as int).drop_last() =~= a@.take(i - 1));
                    assert(b@.take(j as int).drop_last() =~= b@.take(j - 1));
                    assert(a@.take(i as int).last() == a@[i - 1]);
                    assert(b@.take(j as int).last() == b@[j - 1]);
                    lemma_edit_distance_bounds(a@.take(i - 1), b@.take(j as int));
                    lemma_edit_distance_bounds(a@.take(i as int), b@.take(j - 1));
                    lemma_edit_distance_bounds(a@.take(i - 1), b@.take(j - 1));
                }
            }
            let value: usize;
            if i == 0 {
                value = j;
            } else if j == 0 {
                value = i;
            } else if a[i - 1] == b[j - 1] {
                value = table[i - 1][j - 1];
            } else {
                let insertion = 1 + row[j - 1];
                let deletion = 1 + table[i - 1][j];
                let replacement = 1 + table[i - 1][j - 1];
                let m = if insertion <= deletion {
                    insertion
                } else {
                    deletion
                };
                value = if m <= replacement {
                    m
                } else {
                    replacement
                };
            }
            row.push(value);
            j = j + 1;
        }
        table.push(row);
        i = i + 1;
    }
    let r = table[a.len()][b.len()];
    proof {
        assert(a@.take(a@.len() as int) =~= a@);
        assert(b@.take(b@.len() as int) =~= b@);
    }
    r
}

/// The least distance between `q` and any of the first `k` windows of `q`'s
/// length in `line` (`k` at least one, windows starting at offsets `0` to
/// `k - 1`).
pub open spec fn window_distance_prefix(q: Seq<char>, line: Seq<char>, k: int) -> int
    decreases k,
{
    if k <= 1 {
        edit_distance(q, line.subrange(0, q.len() as int))
    } else {
        min2(
            window_distance_prefix(q, line, k - 1),
            edit_distance(q, line.subrange(k - 1, k - 1 + q.len())),
        )
    }
}

/// The sliding-window distance: the least Levenshtein distance between `q`
/// and any contiguous window of `q`'s length in `line`; a line shorter than
/// the query counts as a maximal mismatch, the query's whole length.
pub open spec fn window_distance(q: Seq<char>, line: Seq<char>) -> int {
    if line.len() < q.len() {
        q.len() as int
    } else {
        window_distance_prefix(q, line, line.len() - q.len() + 1)
    }
}

/// The minimum over every same-length window of `line`, computed window by
/// window; a line shorter than the query returns the query's length.
pub fn get_distance(query: &Vec<char>, line: &Vec<char>) -> (r: usize)
    requires
        query@.len() < usize::MAX,
        line@.len() < usize::MAX,
    ensures
        r as int == window_distance(query@, line@),
{
    let query_char_count = query.len();
    let line_char_count = line.len();
    if line_char_count < query_char_count {
        return query_char_count;
    }
    let checks = line_char_count - query_char_count + 1;
    let mut min_distance = usize::MAX;
    let mut i: usize = 0;
    while i < checks
        invariant
            query@.len() < usize::MAX,
            line@.len() < usize::MAX,
            query_char_count == query@.len(),
            line_char_count == line@.len(),
            query_char_count <= line_char_count,
            checks == line_char_count - query_char_count + 1,
            0 <= i <= checks,
            i == 0 ==> min_distance == usize::MAX,
            i >= 1 ==> min_distance as int == window_distance_prefix(query@, line@, i as int),
        decreases checks - i,
    {
        let window = subvec(line, i, i + query_char_count);
        let d = levenshtein(query, &window);
        proof {
            lemma_edit_distance_bounds(query@, window@);
        }
        if d < min_distance {
            min_distance = d;
        }
        i = i + 1;
    }
    min_distance
}

/// A value equals itself at distance zero.
pub proof fn lemma_edit_distance_self(x: Seq<char>)
    ensures
        edit_distance(x, x) == 0,
    decreases x.len(),
{
    if x.len() > 0 {
        lemma_edit_distance_self(x.drop_last());
    }
}

/// The distance is symmetric: editing `a` into `b` costs the same as editing
/// `b` into `a`.
pub proof fn lemma_edit_distance_symmetric(a: Seq<char>, b: Seq<char>)
    ensures
        edit_distance(a, b) == edit_distance(b, a),
    decreases a.len(), b.len(),
{
    if a.len() == 0 || b.len() == 0 {
    } else {
        lemma_edit_distance_symmetric(a.drop_last(), b.drop_last());
        lemma_edit_distance_symmetric(a.drop_last(), b);
        lemma_edit_distance_symmetric(a, b.drop_last());
    }
}

/// The position where the trailing whitespace run begins, scanning left from
/// `j`.
pub open spec fn trailing_ws_start(s: Seq<char>, j: int) -> int
    decreases j,
{
    if j <= 0 || j > s.len() {
        0
    } else if !is_whitespace_char(s[j - 1]) {
        j
    } else {
        trailing_ws_start(s, j - 1)
    }
}

/// `s` with leading and trailing whitespace removed.
pub open spec fn trim_spec(s: Seq<char>) -> Seq<char> {
    let a = whitespace_end(s, 0);
    let b = trailing_ws_start(s, s.len() as int);
    if 0 <= a <= b <= s.len() {
        s.subrange(a, b)
    } else {
        Seq::empty()
    }
}

/// Removes leading and trailing whitespace characters.
pub fn trim_chars(v: &Vec<char>) -> (r: Vec<char>)
    ensures
        r@ == trim_spec(v@),
{
    let ghost s = v@;
    let n = v.len();
    let mut start: usize = 0;
    while start < n && char_is_whitespace(v[start])
        invariant
            s == v@,
            n == s.len(),
            0 <= start <= n,
            whitespace_end(s, 0) == whitespace_end(s, start as int),
        decreases n - start,
    {
        start = start + 1;
    }
    let mut end = n;
    while end > start && char_is_whitespace(v[end - 1])
        invariant
            s == v@,
            n == s.len(),
            start as int == whitespace_end(s, 0),
            start < n ==> !is_whitespace_char(s[start as int]),
            0 <= start <= end <= n,
            start < n ==> start < end,
            trailing_ws_start(s, n as int) == trailing_ws_start(s, end as int),
        decreases end,
    {
        end = end - 1;
    }
    let r = subvec(v, start, end);
    proof {
        if end == start {
            assert(r@ =~= trim_spec(s));
        }
    }
    r
}

/// The first position at or after `i` holding a line break.
pub open spec fn line_break_pos(s: Seq<char>, i: int) -> int
    decreases s.len() - i,
{
    if i < 0 || i >= s.len() {
        s.len() as int
    } else if s[i] == '\n' {
        i
    } else {
        line_break_pos(s, i + 1)
    }
}

/// The lines of `s` from `from` on, split on `'\n'` with the separators
/// dropped; empty segments are kept, and a text without a break is one line.
pub open spec fn split_lines_from(s: Seq<char>, from: int) -> Seq<Seq<char>>
    decreases s.len() - from,
{
    if 0 <= from <= s.len() {
        let p = line_break_pos(s, from);
        if from <= p < s.len() {
            seq![s.subrange(from, p)] + split_lines_from(s, p + 1)
        } else {
            seq![s.subrange(from, s.len() as int)]
        }
    } else {
        Seq::empty()
    }
}

/// The lines of a whole text.
pub open spec fn split_lines_spec(s: Seq<char>) -> Seq<Seq<char>> {
    split_lines_from(s, 0)
}

/// Every line is at most as long as the text it was split from.
pub proof fn lemma_split_lines_elem_len(s: Seq<char>, from: int)
    requires
        0 <= from <= s.len(),
    ensures
        forall|k: int|
            0 <= k < split_lines_from(s, from).len() ==> (#[trigger] split_lines_from(s, from)[k]).len()
                <= s.len(),
    decreases s.len() - from,
{
    let p = line_break_pos(s, from);
    if from <= p < s.len() {
        lemma_split_lines_elem_len(s, p + 1);
        let rest = split_lines_from(s, p + 1);
        assert forall|k: int| 0 <= k < split_lines_from(s, from).len() implies (
        #[trigger] split_lines_from(s, from)[k]).len() <= s.len() by {
            if k > 0 {
                assert(split_lines_from(s, from)[k] == rest[k - 1]);
            }
        }
    }
}

/// The views of a line list.
pub open spec fn lines_views(ls: Seq<Vec<char>>) -> Seq<Seq<char>> {
    ls.map_values(|l: Vec<char>| l@)
}

/// The first position at or after `from` holding a line break, or the end of
/// the text.
fn find_newline(text: &Vec<char>, from: usize) -> (r: usize)
    ensures
        r as int == line_break_pos(text@, from as int),
        r <= text@.len(),
        from <= text@.len() ==> from <= r,
{
    let ghost s = text@;
    let n = text.len();
    if from >= n {
        return n;
    }
    let mut j = from;
    while j < n && !(text[j] == '\n')
        invariant
            s == text@,
            n == s.len(),
            from <= j <= n,
            line_break_pos(s, from as int) == line_break_pos(s, j as int),
        decreases n - j,
    {
        j = j + 1;
    }
    j
}

/// Splits a text into its lines on `'\n'`, separators dropped, empty
/// segments kept.
pub fn split_lines(text: &Vec<char>) -> (r: Vec<Vec<char>>)
    ensures
        lines_views(r@) == split_lines_spec(text@),
{
    let ghost s = text@;
    let n = text.len();
    let mut lines: Vec<Vec<char>> = Vec::new();
    let mut seg_start: usize = 0;
    proof {
        assert(lines_views(lines@) + split_lines_from(s, 0) =~= split_lines_from(s, 0));
    }
    loop
        invariant_except_break
            split_lines_spec(s) == lines_views(lines@) + split_lines_from(s, seg_start as int),
        invariant
            s == text@,
            n == s.len(),
            0 <= seg_start <= n,
        ensures
            lines_views(lines@) == split_lines_spec(s),
        decreases n - seg_start,
    {
        let ghost lv_in = lines_views(lines@);
        let ghost seg0 = seg_start as int;
        let p = find_newline(text, seg_start);
        if p < n {
            let piece = subvec(text, seg_start, p);
            lines.push(piece);
            seg_start = p + 1;
            proof {
                assert(lines_views(lines@) =~= lv_in + seq![s.subrange(seg0, p as int)]);
                assert(split_lines_from(s, seg0) == seq![s.subrange(seg0, p as int)]
                    + split_lines_from(s, p + 1));
                assert(lines_views(lines@) + split_lines_from(s, seg_start as int)
                    =~= split_lines_spec(s));
            }
        } else {
            let piece = subvec(text, seg_start, n);
            lines.push(piece);
            proof {
                assert(lines_views(lines@) =~= lv_in + seq![s.subrange(
                    seg_start as int,
                    n as int,
                )]);
                assert(lines_views(lines@) =~= split_lines_spec(s));
            }
            break ;
        }
    }
    lines
}

/// A trimmed line approximately contains the query: the least window
/// distance, times four, is below the query's length. An empty query never
/// matches.
pub open spec fn line_matches(q: Seq<char>, line: Seq<char>) -> bool {
    4 * window_distance(q, trim_spec(line)) < q.len()
}

/// Some line of the text matches the query.
pub open spec fn text_matches(q: Seq<char>, text: Seq<char>) -> bool {
    exists|i: int|
        0 <= i < split_lines_spec(text).len() && line_matches(q, split_lines_spec(text)[i])
}

/// A link matches when it carries text and some line of that text matches.
pub open spec fn link_matches(q: Seq<char>, l: LinkView) -> bool {
    match l.text {
        Some(t) => text_matches(q, t),
        None => false,
    }
}

/// Whether any line of the link's stored text approximately contains the
/// query. A link without stored text never matches.
pub fn is_good_link(query: &str, link: &Link) -> (r: bool)
    requires
        query@.len() < usize::MAX,
        link@.text matches Some(t) ==> t.len() < usize::MAX,
    ensures
        r == link_matches(query@, link@),
{
    match &link.text {
        None => false,
        Some(text) => {
            let ghost t = link@.text->0;
            let q = chars_of(query);
            let tv = chars_of(text.as_str());
            let lines = split_lines(&tv);
            proof {
                lemma_split_lines_elem_len(tv@, 0);
            }
            let m = lines.len();
            let mut i: usize = 0;
            while i < m
                invariant
                    q@ == query@,
                    q@.len() < usize::MAX,
                    link@.text is Some,
                    t == link@.text->0,
                    tv@ == t,
                    t.len() < usize::MAX,
                    m == lines@.len(),
                    0 <= i <= m,
                    lines_views(lines@) == split_lines_spec(t),
                    forall|k: int|
                        0 <= k < split_lines_spec(t).len() ==> (#[trigger] split_lines_spec(t)[k]).len()
                            <= t.len(),
                    forall|j: int| 0 <= j < i ==> !line_matches(q@, split_lines_spec(t)[j]),
                decreases m - i,
            {
                proof {
                    assert(lines@[i as int]@ == split_lines_spec(t)[i as int]);
                    assert(split_lines_spec(t)[i as int].len() <= t.len());
                }
                let trimmed = trim_chars(&lines[i]);
                let d = get_distance(&q, &trimmed);
                if (d as u128) * 4 < (q.len() as u128) {
                    proof {
                        assert(line_matches(query@, split_lines_spec(t)[i as int]));
                        assert(text_matches(query@, t));
                    }
                    return true;
                }
                i = i + 1;
            }
            proof {
                assert(!text_matches(query@, t));
            }
            false
        },
    }
}

/// A free-text query: one line of text to match against stored pages.
#[derive(Debug)]
pub struct Query {
    line: String,
}

impl View for Query {
    type V = Seq<char>;

    closed spec fn view(&self) -> Seq<char> {
        self.line@
    }
}

impl Query {
    /// A query over the given line of text.
    pub fn new(line: String) -> (q: Query)
        ensures
            q@ == line@,
    {
        Query { line }
    }
}

/// The position right after the last `.` at or before `j`, or zero when
/// there is none.
pub open spec fn last_dot_suffix_start(s: Seq<char>, j: int) -> int
    decreases j,
{
    if j <= 0 || j > s.len() {
        0
    } else if s[j - 1] == '.' {
        j
    } else {
        last_dot_suffix_start(s, j - 1)
    }
}

/// The normalized query: trimmed, and truncated to the substring after the
/// last `.`, dropping filename or namespace prefixes.
pub open spec fn normalize_query(s: Seq<char>) -> Seq<char> {
    let t = trim_spec(s);
    let start = last_dot_suffix_start(t, t.len() as int);
    if 0 <= start <= t.len() {
        t.subrange(start, t.len() as int)
    } else {
        Seq::empty()
    }
}

/// A link with its text omitted, as the query boundary returns it.
pub open spec fn strip_text(l: LinkView) -> LinkView {
    LinkView { id: l.id, url: l.url, text: None }
}

/// The match predicate the query boundary filters with.
pub open spec fn route_pred(q: Seq<char>) -> spec_fn(LinkView) -> bool {
    |l: LinkView| link_matches(normalize_query(q), l)
}

/// The text-stripping map the query boundary answers with.
pub open spec fn strip_fn() -> spec_fn(LinkView) -> LinkView {
    |l: LinkView| strip_text(l)
}

/// What the query boundary returns: the links whose stored text matches the
/// normalized query, in their stored order, each with its text omitted.
pub open spec fn spec_route(q: Seq<char>, links: Seq<LinkView>) -> Seq<LinkView> {
    links.filter(route_pred(q)).map_values(strip_fn())
}

/// The matcher is a pure function: the same query and the same stored links
/// always give the same answer.
pub proof fn lemma_route_deterministic(
    q: Seq<char>,
    links: Seq<LinkView>,
    r1: Seq<LinkView>,
    r2: Seq<LinkView>,
)
    requires
        r1 == spec_route(q, links),
        r2 == spec_route(q, links),
    ensures
        r1 == r2,
{
}

/// Answers a query: normalizes the query line, keeps every link whose stored
/// text matches it, and returns those links in order with their text
/// omitted.
pub fn route(query: &Query, links: &Vec<Link>) -> (r: Vec<Link>)
    requires
        query@.len() < usize::MAX,
        forall|i: int|
            0 <= i < links@.len() ==> ((#[trigger] links@[i])@.text matches Some(t) ==> t.len()
                < usize::MAX),
    ensures
        links_views(r@) == spec_route(query@, links_views(links@)),
{
    let qchars = chars_of(query.line.as_str());
    let trimmed = trim_chars(&qchars);
    let tlen = trimmed.len();
    let mut start = tlen;
    loop
        invariant
            tlen == trimmed@.len(),
            0 <= start <= tlen,
            last_dot_suffix_start(trimmed@, tlen as int) == last_dot_suffix_start(
                trimmed@,
                start as int,
            ),
        ensures
            start as int == last_dot_suffix_start(trimmed@, tlen as int),
            0 <= start <= tlen,
        decreases start,
    {
        if start == 0 {
            break ;
        }
        if trimmed[start - 1] == '.' {
            break ;
        }
        start = start - 1;
    }
    let nq = subvec(&trimmed, start, tlen);
    proof {
        assert(nq@ == normalize_query(query@));
    }
    let nq_string = string_from_chars(&nq);
    let mut out: Vec<Link> = Vec::new();
    let m = links.len();
    let mut i: usize = 0;
    proof {
        reveal(Seq::filter);
        assert(links_views(links@).take(0) =~= Seq::<LinkView>::empty());
        assert(Seq::<LinkView>::empty().filter(route_pred(query@)) =~= Seq::<LinkView>::empty());
        assert(links_views(out@) =~= Seq::<LinkView>::empty().filter(route_pred(query@)).map_values(
            strip_fn(),
        ));
    }
    while i < m
        invariant
            m == links@.len(),
            0 <= i <= m,
            nq_string@ == normalize_query(query@),
            nq_string@.len() < usize::MAX,
            forall|k: int|
                0 <= k < links@.len() ==> ((#[trigger] links@[k])@.text matches Some(t) ==> t.len()
                    < usize::MAX),
            links_views(out@) == links_views(links@).take(i as int).filter(
                route_pred(query@),
            ).map_values(strip_fn()),
        decreases m - i,
    {
        let ghost lv = links_views(links@);
        let ghost pred = route_pred(query@);
        let ghost out_in = links_views(out@);
        let good = is_good_link(nq_string.as_str(), &links[i]);
        if good {
            out.push(Link { url: links[i].url.clone(), id: links[i].id, text: None });
        }
        i = i + 1;
        proof {
            reveal(Seq::filter);
            assert(lv.take(i as int).drop_last() =~= lv.take(i - 1));
            assert(lv.take(i as int).last() == lv[i - 1]);
            assert(pred(lv[i - 1]) == good);
            if good {
                assert(lv.take(i as int).filter(pred) == lv.take(i - 1).filter(pred).push(
                    lv[i - 1],
                ));
                assert(links_views(out@) =~= out_in.push(strip_text(lv[i - 1])));
                assert(links_views(out@) =~= lv.take(i as int).filter(pred).map_values(
                    strip_fn(),
                ));
            } else {
                assert(lv.take(i as int).filter(pred) == lv.take(i - 1).filter(pred));
            }
        }
    }
    proof {
        assert(links_views(links@).take(m as int) =~= links_views(links@));
    }
    out
}

} // verus!
