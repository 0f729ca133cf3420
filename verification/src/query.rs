//! The structured query language: free search text is tokenized on
//! whitespace, each token is split at its first comparison operator, and a
//! row matches a query when every expression matches it.

use vstd::prelude::*;
use crate::text::{
    chars_eq, chars_of, cmp_numeric, contains_seq, contains_sub, dec_cmp, is_decimal, lower,
    lower_vec,
};

verus! {

/// Comparison and matching operators of the query language.
#[derive(Debug, Clone, Copy, PartialEq, Eq, Structural)]
pub enum SearchOp {
    /// case-insensitive substring of the named column
    Eq,
    /// exact equality after case folding
    EqExact,
    /// the named column does not contain the value
    NotEq,
    Gt,
    Lt,
    Ge,
    Le,
    /// fallback: contained anywhere
    Contains,
}

/// One parsed condition, e.g. `size>200`.
#[derive(Debug, Clone)]
pub struct SearchExpr {
    /// lower-cased column name; empty means "any column"
    pub key: Vec<char>,
    pub op: SearchOp,
    /// comparison value with surrounding quotes removed
    pub value: Vec<char>,
}

/// Several conditions combined with AND, e.g. `method=GET size>200`.
#[derive(Debug, Clone)]
pub struct SearchQuery {
    pub exprs: Vec<SearchExpr>,
}

/// A whitespace character, as the tokenizer understands it.
pub open spec fn is_space(c: char) -> bool {
    c == ' ' || c == '\t' || c == '\n' || c == '\r'
}

/// Index of the first whitespace character, or `s.len()` if there is none.
pub open spec fn first_space(s: Seq<char>) -> int
    decreases s.len(),
{
    if s.len() == 0 {
        0
    } else if is_space(s[0]) {
        0
    } else {
        1 + first_space(s.drop_first())
    }
}

/// The whitespace-separated tokens of `s`, in order.
pub open spec fn tokens(s: Seq<char>) -> Seq<Seq<char>>
    decreases s.len(),
    via tokens_decreases
{
    if s.len() == 0 {
        Seq::empty()
    } else if is_space(s[0]) {
        tokens(s.drop_first())
    } else {
        seq![s.subrange(0, first_space(s))] + tokens(s.subrange(first_space(s), s.len() as int))
    }
}

#[via_fn]
proof fn tokens_decreases(s: Seq<char>) {
    if s.len() > 0 && !is_space(s[0]) {
        lemma_first_space_bounds(s);
        lemma_first_space_bounds(s.drop_first());
    }
}

proof fn lemma_first_space_bounds(s: Seq<char>)
    ensures
        0 <= first_space(s) <= s.len(),
    decreases s.len(),
{
    if s.len() > 0 && !is_space(s[0]) {
        lemma_first_space_bounds(s.drop_first());
    }
}

/// Index of the first occurrence of `pat` in `t`, or -1 if it does not
/// occur.
pub open spec fn find_sub(t: Seq<char>, pat: Seq<char>) -> int
    decreases t.len(),
{
    if pat.len() == 0 {
        0
    } else if t.len() < pat.len() {
        -1
    } else if t.subrange(0, pat.len() as int) == pat {
        0
    } else {
        let r = find_sub(t.drop_first(), pat);
        if r == -1 {
            -1
        } else {
            1 + r
        }
    }
}

/// The operator patterns, in the order in which they are tried: longer
/// operators take precedence over their prefixes.
pub open spec fn op_pat(k: int) -> Seq<char> {
    if k == 0 {
        seq!['=', '=']
    } else if k == 1 {
        seq!['!', '=']
    } else if k == 2 {
        seq!['>', '=']
    } else if k == 3 {
        seq!['<', '=']
    } else if k == 4 {
        seq!['>']
    } else if k == 5 {
        seq!['<']
    } else {
        seq!['=']
    }
}

/// The operator each pattern stands for.
pub open spec fn op_of_idx(k: int) -> SearchOp {
    if k == 0 {
        SearchOp::EqExact
    } else if k == 1 {
        SearchOp::NotEq
    } else if k == 2 {
        SearchOp::Ge
    } else if k == 3 {
        SearchOp::Le
    } else if k == 4 {
        SearchOp::Gt
    } else if k == 5 {
        SearchOp::Lt
    } else {
        SearchOp::Eq
    }
}

/// The first operator (in priority order, starting at `k`) that occurs in
/// `t`; 7 when none does.
pub open spec fn op_idx_from(t: Seq<char>, k: int) -> int
    decreases 7 - k,
{
    if k < 0 || k >= 7 {
        7
    } else if find_sub(t, op_pat(k)) >= 0 {
        k
    } else {
        op_idx_from(t, k + 1)
    }
}

/// The operator index chosen for a token, or 7 if it holds no operator.
pub open spec fn token_op_idx(t: Seq<char>) -> int {
    op_idx_from(t, 0)
}

/// `s` with every leading `c` removed.
pub open spec fn strip_lead(s: Seq<char>, c: char) -> Seq<char>
    decreases s.len(),
{
    if s.len() > 0 && s[0] == c {
        strip_lead(s.drop_first(), c)
    } else {
        s
    }
}

/// `s` with every trailing `c` removed.
pub open spec fn strip_trail(s: Seq<char>, c: char) -> Seq<char>
    decreases s.len(),
{
    if s.len() > 0 && s.last() == c {
        strip_trail(s.drop_last(), c)
    } else {
        s
    }
}

/// `s` with surrounding double quotes removed, then surrounding single
/// quotes.
pub open spec fn dequote(s: Seq<char>) -> Seq<char> {
    let a = strip_lead(strip_trail(s, '"'), '"');
    strip_lead(strip_trail(a, '\''), '\'')
}

/// The lower-cased column name of a token: what stands before its first
/// operator, or empty when the token has none.
pub open spec fn token_key(t: Seq<char>) -> Seq<char> {
    let k = token_op_idx(t);
    if k == 7 {
        Seq::empty()
    } else {
        lower(t.subrange(0, find_sub(t, op_pat(k))))
    }
}

/// The comparison value of a token: what stands after its first operator,
/// de-quoted; the whole token when it has no operator.
pub open spec fn token_value(t: Seq<char>) -> Seq<char> {
    let k = token_op_idx(t);
    if k == 7 {
        t
    } else {
        dequote(t.subrange(find_sub(t, op_pat(k)) + op_pat(k).len(), t.len() as int))
    }
}

/// The operator of a token; `Contains` when it has none.
pub open spec fn token_op(t: Seq<char>) -> SearchOp {
    if token_op_idx(t) == 7 {
        SearchOp::Contains
    } else {
        op_of_idx(token_op_idx(t))
    }
}

/// The expression `e` is the one that the token `t` parses to.
pub open spec fn expr_of_token(e: SearchExpr, t: Seq<char>) -> bool {
    &&& e.key@ == token_key(t)
    &&& e.op == token_op(t)
    &&& e.value@ == token_value(t)
}

/// A parsed query is exactly the expressions of the tokens, in order.
pub open spec fn query_of_text(q: SearchQuery, text: Seq<char>) -> bool {
    &&& q.exprs@.len() == tokens(text).len()
    &&& forall|i: int|
        0 <= i < q.exprs@.len() ==> expr_of_token(#[trigger] q.exprs@[i], tokens(text)[i])
}

} // verus!

// ---------------------------------------------------------------------------
// Matching
// ---------------------------------------------------------------------------

verus! {

/// Index of the first header equal to `key` after case folding, or
/// `headers.len()` when no header matches.
pub open spec fn find_col(headers: Seq<Seq<char>>, key: Seq<char>) -> int
    decreases headers.len(),
{
    if headers.len() == 0 {
        0
    } else if lower(headers[0]) == key {
        0
    } else {
        1 + find_col(headers.drop_first(), key)
    }
}

/// Does the cell satisfy `op value`? Substring operators fold case on both
/// sides; ordering operators compare the two sides as decimal numbers and
/// are false when either side is not a number.
pub open spec fn cell_op_matches(op: SearchOp, cell: Seq<char>, value: Seq<char>) -> bool {
    let lc = lower(cell);
    match op {
        SearchOp::Eq => contains_seq(lc, lower(value)),
        SearchOp::Contains => contains_seq(lc, lower(value)),
        SearchOp::EqExact => lc == lower(value),
        SearchOp::NotEq => !contains_seq(lc, lower(value)),
        SearchOp::Gt => is_decimal(lc) && is_decimal(value) && dec_cmp(lc, value) > 0,
        SearchOp::Lt => is_decimal(lc) && is_decimal(value) && dec_cmp(lc, value) < 0,
        SearchOp::Ge => is_decimal(lc) && is_decimal(value) && dec_cmp(lc, value) >= 0,
        SearchOp::Le => is_decimal(lc) && is_decimal(value) && dec_cmp(lc, value) <= 0,
    }
}

/// Does the row satisfy one expression? A key-less expression matches when
/// any cell contains the value, case-insensitively; a named column that
/// does not exist never matches.
pub open spec fn expr_matches(e: SearchExpr, headers: Seq<Seq<char>>, row: Seq<Seq<char>>) -> bool {
    if e.key@.len() == 0 {
        exists|i: int|
            0 <= i < row.len() && contains_seq(lower(#[trigger] row[i]), lower(e.value@))
    } else {
        let c = find_col(headers, e.key@);
        if c < headers.len() && c < row.len() {
            cell_op_matches(e.op, row[c], e.value@)
        } else {
            false
        }
    }
}

/// Does the row satisfy every expression of the query?
pub open spec fn query_matches(q: SearchQuery, headers: Seq<Seq<char>>, row: Seq<Seq<char>>) -> bool {
    forall|i: int| 0 <= i < q.exprs@.len() ==> expr_matches(#[trigger] q.exprs@[i], headers, row)
}

/// Does the row pass the committed filter? No filter admits every row.
pub open spec fn filter_matches(
    q: Option<SearchQuery>,
    headers: Seq<Seq<char>>,
    row: Seq<Seq<char>>,
) -> bool {
    match q {
        Some(query) => query_matches(query, headers, row),
        None => true,
    }
}

proof fn lemma_first_space_props(s: Seq<char>)
    ensures
        0 <= first_space(s) <= s.len(),
        first_space(s) < s.len() ==> is_space(s[first_space(s)]),
        forall|j: int| 0 <= j < first_space(s) ==> !is_space(s[j]),
    decreases s.len(),
{
    if s.len() > 0 && !is_space(s[0]) {
        lemma_first_space_props(s.drop_first());
        assert forall|j: int| 0 <= j < first_space(s) implies !is_space(s[j]) by {
            if j >= 1 {
                assert(s[j] == s.drop_first()[j - 1]);
            }
        }
        if first_space(s) < s.len() {
            assert(s[first_space(s)] == s.drop_first()[first_space(s) - 1]);
        }
    }
}

proof fn lemma_find_sub_props(t: Seq<char>, pat: Seq<char>)
    ensures
        find_sub(t, pat) >= -1,
        find_sub(t, pat) == -1 ==> forall|i: int|
            0 <= i && i + pat.len() <= t.len() ==> #[trigger] t.subrange(i, i + pat.len()) != pat,
        find_sub(t, pat) >= 0 ==> {
            &&& find_sub(t, pat) + pat.len() <= t.len()
            &&& t.subrange(find_sub(t, pat), find_sub(t, pat) + pat.len()) == pat
            &&& forall|j: int|
                0 <= j < find_sub(t, pat) ==> #[trigger] t.subrange(j, j + pat.len()) != pat
        },
    decreases t.len(),
{
    if pat.len() == 0 {
        assert(t.subrange(0, 0) =~= pat);
    } else if t.len() < pat.len() {
    } else if t.subrange(0, pat.len() as int) == pat {
    } else {
        lemma_find_sub_props(t.drop_first(), pat);
        assert forall|i: int|
            1 <= i && i + pat.len() <= t.len() implies #[trigger] t.subrange(i, i + pat.len())
            == t.drop_first().subrange(i - 1, i - 1 + pat.len()) by {
            assert(t.subrange(i, i + pat.len()) =~= t.drop_first().subrange(
                i - 1,
                i - 1 + pat.len(),
            ));
        }
        let r = find_sub(t.drop_first(), pat);
        if r == -1 {
            assert forall|i: int|
                0 <= i && i + pat.len() <= t.len() implies #[trigger] t.subrange(i, i + pat.len())
                != pat by {
                if i >= 1 {
                    assert(t.drop_first().subrange(i - 1, i - 1 + pat.len()) != pat);
                }
            }
        } else {
            assert(t.subrange(1 + r, 1 + r + pat.len()) == pat);
            assert forall|j: int|
                0 <= j < 1 + r implies #[trigger] t.subrange(j, j + pat.len()) != pat by {
                if j >= 1 {
                    assert(t.drop_first().subrange(j - 1, j - 1 + pat.len()) != pat);
                }
            }
        }
    }
}

proof fn lemma_op_idx_from(t: Seq<char>, j: int, k: int)
    requires
        0 <= j <= k <= 7,
        forall|m: int| j <= m < k ==> find_sub(t, #[trigger] op_pat(m)) == -1,
        k < 7 ==> find_sub(t, op_pat(k)) >= 0,
    ensures
        op_idx_from(t, j) == k,
    decreases k - j,
{
    if j == k {
    } else {
        assert(find_sub(t, op_pat(j)) == -1);
        lemma_op_idx_from(t, j + 1, k);
    }
}

/// Copy `t[a..b]` into a fresh buffer.
fn copy_range(t: &Vec<char>, a: usize, b: usize) -> (r: Vec<char>)
    requires
        a <= b <= t@.len(),
    ensures
        r@ == t@.subrange(a as int, b as int),
{
    let mut out: Vec<char> = Vec::new();
    let mut i: usize = a;
    while i < b
        invariant
            a <= i <= b <= t@.len(),
            out@ == t@.subrange(a as int, i as int),
        decreases b - i,
    {
        out.push(t[i]);
        proof {
            assert(out@ =~= t@.subrange(a as int, i + 1));
        }
        i = i + 1;
    }
    out
}

/// Is `c` a whitespace character?
fn space(c: char) -> (r: bool)
    ensures
        r == is_space(c),
{
    c == ' ' || c == '\t' || c == '\n' || c == '\r'
}

/// Split `text` into its whitespace-separated tokens.
pub fn tokenize(text: &Vec<char>) -> (r: Vec<Vec<char>>)
    ensures
        r.deep_view() == tokens(text@),
{
    let mut out: Vec<Vec<char>> = Vec::new();
    let mut i: usize = 0;
    proof {
        assert(text@.subrange(0, text@.len() as int) =~= text@);
        assert(out.deep_view() + tokens(text@) =~~= tokens(text@));
    }
    while i < text.len()
        invariant
            i <= text@.len(),
            tokens(text@) =~~= out.deep_view() + tokens(
                text@.subrange(i as int, text@.len() as int),
            ),
        decreases text.len() - i,
    {
        let ghost rem = text@.subrange(i as int, text@.len() as int);
        if space(text[i]) {
            proof {
                assert(rem[0] == text@[i as int]);
                assert(rem.drop_first() =~= text@.subrange(i + 1, text@.len() as int));
            }
            i = i + 1;
        } else {
            // collect the token that starts here
            let start: usize = i;
            let mut j: usize = i;
            while j < text.len() && !space(text[j])
                invariant
                    start <= j <= text@.len(),
                    forall|m: int| start <= m < j ==> !is_space(text@[m]),
                decreases text.len() - j,
            {
                j = j + 1;
            }
            let tok = copy_range(text, start, j);
            proof {
                lemma_first_space_props(rem);
                assert(first_space(rem) == j - start) by {
                    if first_space(rem) < j - start {
                        assert(is_space(rem[first_space(rem)]));
                        assert(rem[first_space(rem)] == text@[start + first_space(rem)]);
                    }
                    if first_space(rem) > j - start {
                        if j < text@.len() {
                            assert(rem[j - start] == text@[j as int]);
                        }
                    }
                }
                assert(tok@ =~= rem.subrange(0, first_space(rem)));
                assert(rem.subrange(first_space(rem), rem.len() as int) =~= text@.subrange(
                    j as int,
                    text@.len() as int,
                ));
                assert(tokens(rem) == seq![tok@] + tokens(
                    text@.subrange(j as int, text@.len() as int),
                ));
            }
            out.push(tok);
            proof {
                assert(out.deep_view() =~~= out.deep_view().drop_last().push(tok@));
                assert(tokens(text@) =~~= out.deep_view() + tokens(
                    text@.subrange(j as int, text@.len() as int),
                ));
            }
            i = j;
        }
    }
    proof {
        assert(text@.subrange(text@.len() as int, text@.len() as int) =~= Seq::<char>::empty());
        assert(tokens(text@) =~~= out.deep_view());
    }
    out
}

/// Find the first occurrence of `pat` in `t`.
fn find_first(t: &Vec<char>, pat: &Vec<char>) -> (r: Option<usize>)
    requires
        pat@.len() >= 1,
    ensures
        match r {
            Some(i) => find_sub(t@, pat@) == i,
            None => find_sub(t@, pat@) == -1,
        },
{
    proof {
        lemma_find_sub_props(t@, pat@);
    }
    if pat.len() > t.len() {
        return None;
    }
    let count: usize = t.len() - pat.len() + 1;
    let mut i: usize = 0;
    while i < count
        invariant
            1 <= pat@.len() <= t@.len(),
            count == t@.len() - pat@.len() + 1,
            i <= count,
            forall|k: int| 0 <= k < i ==> #[trigger] t@.subrange(k, k + pat@.len()) != pat@,
        decreases count - i,
    {
        if crate::text::matches_at(t, pat, i) {
            proof {
                lemma_find_sub_props(t@, pat@);
            }
            return Some(i);
        }
        i = i + 1;
    }
    None
}

} // verus!

// ---------------------------------------------------------------------------
// Parsing, executable
// ---------------------------------------------------------------------------

verus! {

/// Copy of `v` with every leading `c` removed.
fn strip_lead_vec(v: &Vec<char>, c: char) -> (r: Vec<char>)
    ensures
        r@ == strip_lead(v@, c),
{
    proof {
        assert(v@.subrange(0, v@.len() as int) =~= v@);
    }
    let mut i: usize = 0;
    while i < v.len() && v[i] == c
        invariant
            i <= v@.len(),
            strip_lead(v@, c) == strip_lead(v@.subrange(i as int, v@.len() as int), c),
        decreases v.len() - i,
    {
        proof {
            let cur = v@.subrange(i as int, v@.len() as int);
            assert(cur[0] == c);
            assert(cur.drop_first() =~= v@.subrange(i + 1, v@.len() as int));
        }
        i = i + 1;
    }
    proof {
        let cur = v@.subrange(i as int, v@.len() as int);
        assert(strip_lead(cur, c) == cur);
    }
    copy_range(v, i, v.len())
}

/// Copy of `v` with every trailing `c` removed.
fn strip_trail_vec(v: &Vec<char>, c: char) -> (r: Vec<char>)
    ensures
        r@ == strip_trail(v@, c),
{
    proof {
        assert(v@.subrange(0, v@.len() as int) =~= v@);
    }
    let mut e: usize = v.len();
    while e > 0 && v[e - 1] == c
        invariant
            e <= v@.len(),
            strip_trail(v@, c) == strip_trail(v@.subrange(0, e as int), c),
        decreases e,
    {
        proof {
            let cur = v@.subrange(0, e as int);
            assert(cur.last() == c);
            assert(cur.drop_last() =~= v@.subrange(0, e - 1));
        }
        e = e - 1;
    }
    proof {
        let cur = v@.subrange(0, e as int);
        assert(strip_trail(cur, c) == cur);
    }
    copy_range(v, 0, e)
}

/// Remove surrounding double quotes, then surrounding single quotes.
fn dequote_vec(v: &Vec<char>) -> (r: Vec<char>)
    ensures
        r@ == dequote(v@),
{
    let a = strip_trail_vec(v, '"');
    let b = strip_lead_vec(&a, '"');
    let d = strip_trail_vec(&b, '\'');
    strip_lead_vec(&d, '\'')
}

/// The `k`-th operator pattern as a buffer.
fn op_pattern(k: usize) -> (r: Vec<char>)
    requires
        k < 7,
    ensures
        r@ == op_pat(k as int),
        1 <= r@.len() <= 2,
{
    let mut p: Vec<char> = Vec::new();
    if k == 0 {
        p.push('=');
        p.push('=');
        proof {
            assert(p@ =~= op_pat(0));
        }
    } else if k == 1 {
        p.push('!');
        p.push('=');
        proof {
            assert(p@ =~= op_pat(1));
        }
    } else if k == 2 {
        p.push('>');
        p.push('=');
        proof {
            assert(p@ =~= op_pat(2));
        }
    } else if k == 3 {
        p.push('<');
        p.push('=');
        proof {
            assert(p@ =~= op_pat(3));
        }
    } else if k == 4 {
        p.push('>');
        proof {
            assert(p@ =~= op_pat(4));
        }
    } else if k == 5 {
        p.push('<');
        proof {
            assert(p@ =~= op_pat(5));
        }
    } else {
        p.push('=');
        proof {
            assert(p@ =~= op_pat(6));
        }
    }
    p
}

/// Parse one token into an expression: split it at the first operator that
/// occurs in it, trying longer operators first.
fn parse_token(t: &Vec<char>) -> (r: SearchExpr)
    ensures
        expr_of_token(r, t@),
{
    let mut k: usize = 0;
    while k < 7
        invariant
            k <= 7,
            forall|m: int| 0 <= m < k ==> find_sub(t@, #[trigger] op_pat(m)) == -1,
        decreases 7 - k,
    {
        let pat = op_pattern(k);
        match find_first(t, &pat) {
            Some(i) => {
                proof {
                    lemma_op_idx_from(t@, 0, k as int);
                    lemma_find_sub_props(t@, pat@);
                }
                let key_raw = copy_range(t, 0, i);
                let key = lower_vec(&key_raw);
                let tlen: usize = t.len();
                let tail = copy_range(t, i + pat.len(), tlen);
                let value = dequote_vec(&tail);
                let op = if k == 0 {
                    SearchOp::EqExact
                } else if k == 1 {
                    SearchOp::NotEq
                } else if k == 2 {
                    SearchOp::Ge
                } else if k == 3 {
                    SearchOp::Le
                } else if k == 4 {
                    SearchOp::Gt
                } else if k == 5 {
                    SearchOp::Lt
                } else {
                    SearchOp::Eq
                };
                return SearchExpr { key, op, value };
            },
            None => {},
        }
        k = k + 1;
    }
    proof {
        lemma_op_idx_from(t@, 0, 7);
    }
    SearchExpr { key: Vec::new(), op: SearchOp::Contains, value: t.clone() }
}

/// Parse free search text into a query. Text without a single token — empty
/// or all whitespace — is no filter at all.
pub fn parse_query(text: &Vec<char>) -> (r: Option<SearchQuery>)
    ensures
        r is Some <==> tokens(text@).len() > 0,
        match r {
            Some(q) => query_of_text(q, text@),
            None => true,
        },
{
    let toks = tokenize(text);
    proof {
        assert(toks@.len() == toks.deep_view().len());
    }
    if toks.len() == 0 {
        return None;
    }
    let mut exprs: Vec<SearchExpr> = Vec::new();
    let mut i: usize = 0;
    while i < toks.len()
        invariant
            i <= toks@.len(),
            toks.deep_view() == tokens(text@),
            toks@.len() == tokens(text@).len(),
            exprs@.len() == i,
            forall|j: int| 0 <= j < i ==> expr_of_token(#[trigger] exprs@[j], tokens(text@)[j]),
        decreases toks.len() - i,
    {
        let e = parse_token(&toks[i]);
        proof {
            assert(toks@[i as int]@ == toks.deep_view()[i as int]);
        }
        exprs.push(e);
        i = i + 1;
    }
    Some(SearchQuery { exprs })
}

} // verus!

// ---------------------------------------------------------------------------
// Matching, executable
// ---------------------------------------------------------------------------

verus! {

proof fn lemma_find_col_props(headers: Seq<Seq<char>>, key: Seq<char>)
    ensures
        0 <= find_col(headers, key) <= headers.len(),
        find_col(headers, key) < headers.len() ==> lower(headers[find_col(headers, key)]) == key,
        forall|j: int| 0 <= j < find_col(headers, key) ==> lower(#[trigger] headers[j]) != key,
    decreases headers.len(),
{
    if headers.len() > 0 && lower(headers[0]) != key {
        lemma_find_col_props(headers.drop_first(), key);
        assert forall|j: int| 0 <= j < find_col(headers, key) implies lower(
            #[trigger] headers[j],
        ) != key by {
            if j >= 1 {
                assert(headers[j] == headers.drop_first()[j - 1]);
            }
        }
        if find_col(headers, key) < headers.len() {
            assert(headers[find_col(headers, key)] == headers.drop_first()[find_col(
                headers,
                key,
            ) - 1]);
        }
    }
}

/// Position of the column named `key` (already lower-cased), matched
/// case-insensitively against the headers.
pub(crate) fn find_column(headers: &Vec<String>, key: &Vec<char>) -> (r: Option<usize>)
    ensures
        match r {
            Some(i) => i == find_col(headers.deep_view(), key@) && i < headers.deep_view().len(),
            None => find_col(headers.deep_view(), key@) == headers.deep_view().len(),
        },
{
    proof {
        lemma_find_col_props(headers.deep_view(), key@);
    }
    let mut i: usize = 0;
    while i < headers.len()
        invariant
            i <= headers@.len(),
            headers.deep_view().len() == headers@.len(),
            forall|j: int| 0 <= j < i ==> lower(#[trigger] headers.deep_view()[j]) != key@,
        decreases headers.len() - i,
    {
        let h = chars_of(headers[i].as_str());
        let hl = lower_vec(&h);
        proof {
            assert(headers.deep_view()[i as int] == headers@[i as int]@);
        }
        if chars_eq(&hl, key) {
            proof {
                lemma_find_col_props(headers.deep_view(), key@);
                assert(lower(headers.deep_view()[i as int]) == key@);
            }
            return Some(i);
        }
        i = i + 1;
    }
    proof {
        lemma_find_col_props(headers.deep_view(), key@);
    }
    None
}

/// Does the cell at hand satisfy `op value`?
fn cell_matches(op: SearchOp, cell: &String, value: &Vec<char>) -> (r: bool)
    ensures
        r == cell_op_matches(op, cell@, value@),
{
    let raw = chars_of(cell.as_str());
    let lc = lower_vec(&raw);
    match op {
        SearchOp::Eq => contains_sub(&lc, &lower_vec(value)),
        SearchOp::Contains => contains_sub(&lc, &lower_vec(value)),
        SearchOp::EqExact => chars_eq(&lc, &lower_vec(value)),
        SearchOp::NotEq => !contains_sub(&lc, &lower_vec(value)),
        SearchOp::Gt => match cmp_numeric(&lc, value) {
            Some(c) => c > 0,
            None => false,
        },
        SearchOp::Lt => match cmp_numeric(&lc, value) {
            Some(c) => c < 0,
            None => false,
        },
        SearchOp::Ge => match cmp_numeric(&lc, value) {
            Some(c) => c >= 0,
            None => false,
        },
        SearchOp::Le => match cmp_numeric(&lc, value) {
            Some(c) => c <= 0,
            None => false,
        },
    }
}

/// Does the row satisfy one expression?
pub fn expr_matches_row(e: &SearchExpr, headers: &Vec<String>, row: &Vec<String>) -> (r: bool)
    ensures
        r == expr_matches(*e, headers.deep_view(), row.deep_view()),
{
    if e.key.len() == 0 {
        let lv = lower_vec(&e.value);
        let mut i: usize = 0;
        while i < row.len()
            invariant
                e.key@.len() == 0,
                lv@ == lower(e.value@),
                i <= row@.len(),
                row.deep_view().len() == row@.len(),
                forall|j: int|
                    0 <= j < i ==> !contains_seq(lower(#[trigger] row.deep_view()[j]), lower(e.value@)),
            decreases row.len() - i,
        {
            let cell = chars_of(row[i].as_str());
            let lc = lower_vec(&cell);
            proof {
                assert(row.deep_view()[i as int] == row@[i as int]@);
            }
            if contains_sub(&lc, &lv) {
                proof {
                    assert(contains_seq(lower(row.deep_view()[i as int]), lower(e.value@)));
                }
                return true;
            }
            i = i + 1;
        }
        return false;
    }
    match find_column(headers, &e.key) {
        Some(c) => {
            if c < row.len() {
                cell_matches(e.op, &row[c], &e.value)
            } else {
                false
            }
        },
        None => false,
    }
}

/// Does the row satisfy every expression of the query?
pub fn query_matches_row(q: &SearchQuery, headers: &Vec<String>, row: &Vec<String>) -> (r: bool)
    ensures
        r == query_matches(*q, headers.deep_view(), row.deep_view()),
{
    let mut i: usize = 0;
    while i < q.exprs.len()
        invariant
            i <= q.exprs@.len(),
            forall|j: int|
                0 <= j < i ==> expr_matches(
                    #[trigger] q.exprs@[j],
                    headers.deep_view(),
                    row.deep_view(),
                ),
        decreases q.exprs.len() - i,
    {
        if !expr_matches_row(&q.exprs[i], headers, row) {
            return false;
        }
        i = i + 1;
    }
    true
}

/// Does the row pass the committed filter? No filter admits every row.
pub fn filter_matches_row(q: &Option<SearchQuery>, headers: &Vec<String>, row: &Vec<String>) -> (r:
    bool)
    ensures
        r == filter_matches(*q, headers.deep_view(), row.deep_view()),
{
    match q {
        Some(query) => query_matches_row(query, headers, row),
        None => true,
    }
}

} // verus!
