//! Where the pieces of a script end, and which statement a cursor picks.

use vstd::prelude::*;
use crate::sql::{
    block_end, dollar_end, law_separators_are_semicolons, law_statement_holds_cursor, line_end,
    opening_tag, passed, piece_end, quoted_end, separators, statement_bounds, statement_text,
    tag_run,
};
use crate::text::{byte_offset, is_white, trim, trim_end, trim_start};

verus! {

// ---- pieces ----------------------------------------------------------------------

/// Whether a character may stand in the tag of a dollar quote: a digit, a letter of ASCII in
/// either case, or an underscore, by its code.
pub open spec fn may_stand_in_tag(c: char) -> bool {
    let code = c as int;
    48 <= code <= 57 || 65 <= code <= 90 || 97 <= code <= 122 || code == 95
}

/// What opens and closes a dollar-quoted body.
pub open spec fn dollar_mark(tag: Seq<char>) -> Seq<char> {
    seq!['$'] + tag + seq!['$']
}

proof fn lemma_tag_run_of(s: Seq<char>, i: int, end: int)
    requires
        0 <= i <= end <= s.len(),
        forall|k: int| i <= k < end ==> may_stand_in_tag(#[trigger] s[k]),
        end == s.len() || !may_stand_in_tag(s[end]),
    ensures
        tag_run(s, i) == end,
    decreases end - i,
{
    if i < end {
        assert(may_stand_in_tag(s[i]));
        lemma_tag_run_of(s, i + 1, end);
    }
}

proof fn lemma_dollar_end_of(s: Seq<char>, i: int, end: int, mark: Seq<char>)
    requires
        0 <= i <= end,
        mark.len() > 0,
        end + mark.len() <= s.len(),
        s.subrange(end, end + mark.len()) == mark,
        forall|k: int|
            i <= k < end ==> #[trigger] s.subrange(k, k + mark.len()) != mark,
    ensures
        dollar_end(s, i, mark) == end + mark.len(),
    decreases end - i,
{
    let rest = s.skip(i);
    assert(rest.take(mark.len() as int) =~= s.subrange(i, i + mark.len()));
    assert(rest.subrange(0, mark.len() as int) =~= s.subrange(i, i + mark.len()));
    if i < end {
        assert(s.subrange(i, i + mark.len()) != mark);
        assert(!mark.is_prefix_of(rest));
        lemma_dollar_end_of(s, i + 1, end, mark);
    } else {
        assert(mark.is_prefix_of(rest));
    }
}

proof fn lemma_opening_tag(s: Seq<char>, i: int, tag: Seq<char>)
    requires
        0 <= i,
        i + dollar_mark(tag).len() <= s.len(),
        s.subrange(i, i + dollar_mark(tag).len()) == dollar_mark(tag),
        forall|k: int| 0 <= k < tag.len() ==> may_stand_in_tag(#[trigger] tag[k]),
    ensures
        opening_tag(s.skip(i)) == Some(dollar_mark(tag).len() as int),
        s[i] == '$',
{
    let mark = dollar_mark(tag);
    let rest = s.skip(i);
    let n = tag.len() as int;
    assert forall|k: int| 0 <= k < mark.len() implies #[trigger] rest[k] == mark[k] by {
        assert(s.subrange(i, i + mark.len())[k] == s[i + k]);
    }
    assert(rest[0] == mark[0]);
    assert(rest[n + 1] == mark[n + 1]);
    assert forall|k: int| 1 <= k < n + 1 implies may_stand_in_tag(#[trigger] rest[k]) by {
        assert(rest[k] == mark[k]);
        assert(mark[k] == tag[k - 1]);
    }
    lemma_tag_run_of(rest, 1, n + 1);
}

/// A dollar-quoted body is one piece, whatever it holds, up to the first mark like the one
/// that opened it. Its tag is made of digits, letters of ASCII in either case and underscores,
/// or is empty.
pub proof fn law_dollar_quoted_body_is_one_piece(
    pre: Seq<char>,
    tag: Seq<char>,
    body: Seq<char>,
    post: Seq<char>,
)
    requires
        forall|k: int| 0 <= k < tag.len() ==> may_stand_in_tag(#[trigger] tag[k]),
        forall|k: int|
            0 <= k < body.len() ==> #[trigger] (body + dollar_mark(tag)).subrange(
                k,
                k + dollar_mark(tag).len(),
            ) != dollar_mark(tag),
    ensures
        piece_end(
            pre + dollar_mark(tag) + body + dollar_mark(tag) + post,
            pre.len() as int,
        ) == pre.len() + 2 * dollar_mark(tag).len() + body.len(),
{
    let mark = dollar_mark(tag);
    let s = pre + mark + body + mark + post;
    let i = pre.len() as int;
    let m = mark.len() as int;
    assert(s.subrange(i, i + m) =~= mark);
    lemma_opening_tag(s, i, tag);
    let start = i + m;
    let end = start + body.len();
    assert(s.subrange(end, end + m) =~= mark);
    assert forall|k: int| start <= k < end implies #[trigger] s.subrange(k, k + m) != mark by {
        assert(s.subrange(k, k + m) =~= (body + mark).subrange(k - start, k - start + m));
        assert((body + mark).subrange(k - start, k - start + m) != mark);
    }
    lemma_dollar_end_of(s, start, end, mark);
}

proof fn lemma_dollar_open(s: Seq<char>, i: int, mark: Seq<char>)
    requires
        0 <= i <= s.len(),
        mark.len() > 0,
        forall|k: int|
            i <= k && k + mark.len() <= s.len() ==> #[trigger] s.subrange(k, k + mark.len())
                != mark,
    ensures
        dollar_end(s, i, mark) == s.len(),
    decreases s.len() - i,
{
    if i < s.len() {
        let rest = s.skip(i);
        if mark.is_prefix_of(rest) {
            assert(rest.subrange(0, mark.len() as int) =~= s.subrange(i, i + mark.len()));
            assert(s.subrange(i, i + mark.len()) != mark);
        }
        lemma_dollar_open(s, i + 1, mark);
    }
}

/// A dollar-quoted body that is not closed goes up to the end of the text.
pub proof fn law_open_dollar_quote_takes_the_rest(pre: Seq<char>, tag: Seq<char>, body: Seq<char>)
    requires
        forall|k: int| 0 <= k < tag.len() ==> may_stand_in_tag(#[trigger] tag[k]),
        forall|k: int|
            0 <= k && k + dollar_mark(tag).len() <= body.len() ==> #[trigger] body.subrange(
                k,
                k + dollar_mark(tag).len(),
            ) != dollar_mark(tag),
    ensures
        piece_end(pre + dollar_mark(tag) + body, pre.len() as int) == pre.len() + dollar_mark(
            tag,
        ).len() + body.len(),
{
    let mark = dollar_mark(tag);
    let s = pre + mark + body;
    let i = pre.len() as int;
    let m = mark.len() as int;
    assert(s.subrange(i, i + m) =~= mark);
    lemma_opening_tag(s, i, tag);
    let start = i + m;
    assert forall|k: int| start <= k && k + m <= s.len() implies #[trigger] s.subrange(k, k + m)
        != mark by {
        assert(s.subrange(k, k + m) =~= body.subrange(k - start, k - start + m));
        assert(body.subrange(k - start, k - start + m) != mark);
    }
    lemma_dollar_open(s, start, mark);
}

/// A dollar sign that opens no body, because what follows it up to the next character that
/// may not stand in a tag is not closed by another dollar sign, is a piece by itself.
pub proof fn law_lone_dollar_is_one_character(pre: Seq<char>, tag: Seq<char>, post: Seq<char>)
    requires
        forall|k: int| 0 <= k < tag.len() ==> may_stand_in_tag(#[trigger] tag[k]),
        post.len() == 0 || (post[0] != '$' && !may_stand_in_tag(post[0])),
    ensures
        piece_end(pre + seq!['$'] + tag + post, pre.len() as int) == pre.len() + 1,
{
    let s = pre + seq!['$'] + tag + post;
    let i = pre.len() as int;
    let rest = s.skip(i);
    let n = tag.len() as int;
    assert(s[i] == '$');
    assert(rest[0] == '$');
    assert forall|k: int| 1 <= k < n + 1 implies may_stand_in_tag(#[trigger] rest[k]) by {
        assert(rest[k] == tag[k - 1]);
    }
    if post.len() > 0 {
        assert(rest[n + 1] == post[0]);
    }
    lemma_tag_run_of(rest, 1, n + 1);
}

proof fn lemma_line_end_of(s: Seq<char>, i: int, end: int)
    requires
        0 <= i <= end <= s.len(),
        forall|k: int| i <= k < end ==> #[trigger] s[k] != '\n',
        end == s.len() || s[end] == '\n',
    ensures
        line_end(s, i) == end,
    decreases end - i,
{
    if i < end {
        assert(s[i] != '\n');
        lemma_line_end_of(s, i + 1, end);
    }
}

/// A comment that two dashes begin is one piece, up to the end of its line.
pub proof fn law_line_comment_is_one_piece(pre: Seq<char>, body: Seq<char>, post: Seq<char>)
    requires
        forall|k: int| 0 <= k < body.len() ==> #[trigger] body[k] != '\n',
        post.len() == 0 || post[0] == '\n',
    ensures
        piece_end(pre + seq!['-', '-'] + body + post, pre.len() as int) == pre.len() + 2
            + body.len(),
{
    let s = pre + seq!['-', '-'] + body + post;
    let i = pre.len() as int;
    assert(s[i] == '-');
    assert(s[i + 1] == '-');
    let end = i + 2 + body.len();
    assert forall|k: int| i + 2 <= k < end implies #[trigger] s[k] != '\n' by {
        assert(s[k] == body[k - i - 2]);
    }
    if post.len() > 0 {
        assert(s[end] == post[0]);
    }
    lemma_line_end_of(s, i + 2, end);
}

proof fn lemma_block_end_of(s: Seq<char>, i: int, end: int)
    requires
        0 <= i <= end,
        end + 2 <= s.len(),
        s[end] == '*',
        s[end + 1] == '/',
        forall|k: int| i <= k < end ==> !(#[trigger] s[k] == '*' && s[k + 1] == '/'),
    ensures
        block_end(s, i) == end + 2,
    decreases end - i,
{
    if i < end {
        assert(!(s[i] == '*' && s[i + 1] == '/'));
        lemma_block_end_of(s, i + 1, end);
    }
}

proof fn lemma_block_open(s: Seq<char>, i: int)
    requires
        0 <= i <= s.len(),
        forall|k: int| i <= k < s.len() - 1 ==> !(#[trigger] s[k] == '*' && s[k + 1] == '/'),
    ensures
        block_end(s, i) == s.len(),
    decreases s.len() - i,
{
    if i + 1 < s.len() {
        assert(!(s[i] == '*' && s[i + 1] == '/'));
        lemma_block_open(s, i + 1);
    }
}

/// A block comment is one piece, whatever it holds, up to the first `*/` in it; one that is
/// not closed goes up to the end of the text.
pub proof fn law_block_comment_is_one_piece(pre: Seq<char>, body: Seq<char>, post: Seq<char>)
    requires
        forall|k: int| 0 <= k < body.len() - 1 ==> !(#[trigger] body[k] == '*' && body[k + 1] == '/'),
    ensures
        piece_end(
            pre + seq!['/', '*'] + body + seq!['*', '/'] + post,
            pre.len() as int,
        ) == pre.len() + 4 + body.len(),
        piece_end(pre + seq!['/', '*'] + body, pre.len() as int) == pre.len() + 2 + body.len(),
{
    let i = pre.len() as int;
    let s = pre + seq!['/', '*'] + body + seq!['*', '/'] + post;
    let end = i + 2 + body.len();
    assert(s[i] == '/' && s[i + 1] == '*');
    assert(s[end] == '*' && s[end + 1] == '/');
    assert forall|k: int| i + 2 <= k < end implies !(#[trigger] s[k] == '*' && s[k + 1] == '/') by {
        assert(s[k] == body[k - i - 2]);
        if k + 1 < end {
            assert(s[k + 1] == body[k - i - 1]);
        }
    }
    lemma_block_end_of(s, i + 2, end);
    let t = pre + seq!['/', '*'] + body;
    assert(t[i] == '/' && t[i + 1] == '*');
    assert forall|k: int| i + 2 <= k < t.len() - 1 implies !(#[trigger] t[k] == '*' && t[k + 1]
        == '/') by {
        assert(t[k] == body[k - i - 2]);
        assert(t[k + 1] == body[k - i - 1]);
    }
    lemma_block_open(t, i + 2);
}

proof fn lemma_quote_open(s: Seq<char>, i: int, q: char)
    requires
        0 <= i <= s.len(),
        forall|k: int| i <= k < s.len() ==> #[trigger] s[k] != q,
    ensures
        quoted_end(s, i, q) == s.len(),
    decreases s.len() - i,
{
    if i < s.len() {
        assert(s[i] != q);
        lemma_quote_open(s, i + 1, q);
    }
}

/// A quoted text that is not closed goes up to the end of the text.
pub proof fn law_open_quote_takes_the_rest(pre: Seq<char>, q: char, body: Seq<char>)
    requires
        q == '\'' || q == '"',
        forall|k: int| 0 <= k < body.len() ==> #[trigger] body[k] != q,
    ensures
        piece_end(pre + seq![q] + body, pre.len() as int) == pre.len() + 1 + body.len(),
{
    let s = pre + seq![q] + body;
    let i = pre.len() as int;
    assert(s[i] == q);
    assert forall|k: int| i + 1 <= k < s.len() implies #[trigger] s[k] != q by {
        assert(s[k] == body[k - i - 1]);
    }
    lemma_quote_open(s, i + 1, q);
}

/// Any other character is a piece by itself: one that begins nothing, a dash that no second
/// one follows, a slash that no star follows.
pub proof fn law_other_characters_stand_alone(s: Seq<char>, i: int)
    requires
        0 <= i < s.len(),
        s[i] != '\'' && s[i] != '"' && s[i] != '$',
        s[i] == '-' ==> i + 1 == s.len() || s[i + 1] != '-',
        s[i] == '/' ==> i + 1 == s.len() || s[i + 1] != '*',
    ensures
        piece_end(s, i) == i + 1,
{
    assert(s.skip(i)[0] == s[i]);
}

// ---- separators ------------------------------------------------------------------

/// Whether positions are where the pieces of a text begin, one after the other, up to its
/// end.
pub open spec fn are_pieces(s: Seq<char>, starts: Seq<int>) -> bool {
    &&& forall|k: int| 0 <= k < starts.len() ==> 0 <= #[trigger] starts[k] < s.len()
    &&& (s.len() > 0 ==> starts.len() > 0 && starts[0] == 0)
    &&& forall|k: int|
        0 <= k < starts.len() ==> piece_end(s, #[trigger] starts[k]) == (if k + 1
            < starts.len() {
            starts[k + 1]
        } else {
            s.len() as int
        })
}

/// Whether a semicolon at a position is a piece by itself, the `k`-th one or a later one.
spec fn free_from(s: Seq<char>, starts: Seq<int>, k: int, p: int) -> bool {
    exists|j: int| k <= j < starts.len() && #[trigger] starts[j] == p && s[p] == ';'
}

proof fn lemma_free_step(s: Seq<char>, starts: Seq<int>, k: int, p: int)
    requires
        0 <= k < starts.len(),
    ensures
        free_from(s, starts, k, p) == (free_from(s, starts, k + 1, p) || (starts[k] == p && s[p]
            == ';')),
{
    if free_from(s, starts, k, p) {
        let j = choose|j: int|
            k <= j < starts.len() && #[trigger] starts[j] == p && s[p] == ';';
        if j > k {
            assert(k + 1 <= j && starts[j] == p);
        }
    }
    if free_from(s, starts, k + 1, p) {
        let j = choose|j: int|
            k + 1 <= j < starts.len() && #[trigger] starts[j] == p && s[p] == ';';
        assert(k <= j && starts[j] == p);
    }
}

proof fn lemma_contains_front(x: int, rest: Seq<int>, p: int)
    ensures
        (seq![x] + rest).contains(p) == (x == p || rest.contains(p)),
{
    let all = seq![x] + rest;
    if all.contains(p) {
        let m = choose|m: int| 0 <= m < all.len() && all[m] == p;
        if m > 0 {
            assert(rest[m - 1] == p);
        }
    }
    if rest.contains(p) {
        let m = choose|m: int| 0 <= m < rest.len() && rest[m] == p;
        assert(all[m + 1] == p);
    }
    if x == p {
        assert(all[0] == p);
    }
}

/// Where the `k`-th piece begins; the end of the text behind the last one.
spec fn start_of(s: Seq<char>, starts: Seq<int>, k: int) -> int {
    if k < starts.len() {
        starts[k]
    } else {
        s.len() as int
    }
}

proof fn lemma_separators_from(s: Seq<char>, starts: Seq<int>, k: int, p: int)
    requires
        are_pieces(s, starts),
        0 <= k <= starts.len(),
    ensures
        separators(s, start_of(s, starts, k)).contains(p) == free_from(s, starts, k, p),
    decreases starts.len() - k,
{
    if k < starts.len() {
        lemma_separators_from(s, starts, k + 1, p);
        lemma_free_step(s, starts, k, p);
        let at = starts[k];
        let next = start_of(s, starts, k + 1);
        assert(piece_end(s, at) == next);
        if s[at] == ';' {
            law_other_characters_stand_alone(s, at);
            lemma_contains_front(at, separators(s, next), p);
        }
    } else {
        assert(separators(s, s.len() as int) =~= Seq::<int>::empty());
    }
}

/// The statements of a script are parted by the semicolons that are pieces by themselves, and
/// by no others.
pub proof fn law_free_semicolons_separate(s: Seq<char>, starts: Seq<int>, p: int)
    requires
        are_pieces(s, starts),
    ensures
        separators(s, 0).contains(p) <==> starts.contains(p) && 0 <= p < s.len() && s[p] == ';',
{
    lemma_separators_from(s, starts, 0, p);
    if starts.contains(p) && 0 <= p < s.len() && s[p] == ';' {
        let j = choose|j: int| 0 <= j < starts.len() && starts[j] == p;
        assert(starts[j] == p && s[p] == ';');
        assert(free_from(s, starts, 0, p));
        assert(starts[0] == 0);
    }
    if separators(s, 0).contains(p) {
        assert(s.len() > 0) by {
            if s.len() == 0 {
                assert(separators(s, 0) =~= Seq::<int>::empty());
            }
        }
        assert(starts[0] == 0);
        let j = choose|j: int| 0 <= j < starts.len() && #[trigger] starts[j] == p && s[p] == ';';
        assert(starts[j] == p);
    }
}

// ---- the statement at the cursor ---------------------------------------------------

/// The statement that a cursor picks goes from one separator, or the start of the text, to the
/// next one, or its end; it holds the cursor, and no separator lies in it.
pub proof fn law_statement_lies_between_separators(s: Seq<char>, cursor: int)
    requires
        0 <= cursor,
    ensures
        ({
            let (a, b) = statement_bounds(s, cursor);
            let end = byte_offset(s, s.len() as int);
            &&& 0 <= a <= b <= s.len()
            &&& a == 0 || separators(s, 0).contains(a - 1)
            &&& b == s.len() || separators(s, 0).contains(b)
            &&& byte_offset(s, a) <= (if cursor < end {
                cursor
            } else {
                end as int
            }) <= byte_offset(s, b)
            &&& forall|p: int| a <= p < b ==> !#[trigger] separators(s, 0).contains(p)
        }),
{
    law_statement_holds_cursor(s, cursor);
    law_separators_are_semicolons(s, 0);
    let seps = separators(s, 0);
    let (a, b) = statement_bounds(s, cursor);
    let k = passed(s, seps, cursor);
    lemma_passed_within(s, seps, cursor);
    if k > 0 {
        assert(seps[k - 1] == a - 1);
    }
    if k < seps.len() {
        assert(seps[k] == b);
    }
    assert forall|p: int| a <= p < b implies !#[trigger] seps.contains(p) by {
        if seps.contains(p) {
            let j = choose|j: int| 0 <= j < seps.len() && seps[j] == p;
            assert(!(a <= seps[j] < b));
        }
    }
}

proof fn lemma_passed_within(s: Seq<char>, seps: Seq<int>, cursor: int)
    ensures
        0 <= passed(s, seps, cursor) <= seps.len(),
    decreases seps.len(),
{
    if seps.len() > 0 {
        lemma_passed_within(s, seps.drop_first(), cursor);
    }
}

/// Whether a character is white space, by its code in Unicode.
pub open spec fn is_blank(c: char) -> bool {
    let code = c as int;
    ||| 9 <= code <= 13
    ||| code == 32
    ||| code == 0x85
    ||| code == 0xa0
    ||| code == 0x1680
    ||| 0x2000 <= code <= 0x200a
    ||| 0x2028 <= code <= 0x2029
    ||| code == 0x202f
    ||| code == 0x205f
    ||| code == 0x3000
}

/// Whether a text is what is left of another one without the white space round it, which
/// stands in it from `x` to `y`.
pub open spec fn is_core(t: Seq<char>, s: Seq<char>, x: int, y: int) -> bool {
    &&& 0 <= x <= y <= s.len()
    &&& t == s.subrange(x, y)
    &&& forall|i: int| 0 <= i < x ==> is_blank(#[trigger] s[i])
    &&& forall|i: int| y <= i < s.len() ==> is_blank(#[trigger] s[i])
    &&& (x < y ==> !is_blank(s[x]) && !is_blank(s[y - 1]))
}

proof fn lemma_trim_start(s: Seq<char>) -> (x: int)
    ensures
        0 <= x <= s.len(),
        trim_start(s) == s.skip(x),
        forall|i: int| 0 <= i < x ==> is_blank(#[trigger] s[i]),
        x < s.len() ==> !is_blank(s[x]),
    decreases s.len(),
{
    if s.len() > 0 && is_white(s[0]) {
        let more = s.drop_first();
        let x = lemma_trim_start(more);
        assert(more.skip(x) =~= s.skip(x + 1));
        assert forall|i: int| 0 <= i < x + 1 implies is_blank(#[trigger] s[i]) by {
            if i > 0 {
                assert(s[i] == more[i - 1]);
            }
        }
        if x < more.len() {
            assert(s[x + 1] == more[x]);
        }
        x + 1
    } else {
        assert(s.skip(0) =~= s);
        0
    }
}

proof fn lemma_trim_end(s: Seq<char>) -> (y: int)
    ensures
        0 <= y <= s.len(),
        trim_end(s) == s.take(y),
        forall|i: int| y <= i < s.len() ==> is_blank(#[trigger] s[i]),
        0 < y ==> !is_blank(s[y - 1]),
    decreases s.len(),
{
    if s.len() > 0 && is_white(s.last()) {
        let less = s.drop_last();
        let y = lemma_trim_end(less);
        assert(less.take(y) =~= s.take(y));
        assert forall|i: int| y <= i < s.len() implies is_blank(#[trigger] s[i]) by {
            if i < less.len() {
                assert(s[i] == less[i]);
            }
        }
        if 0 < y {
            assert(s[y - 1] == less[y - 1]);
        }
        y
    } else {
        assert(s.take(s.len() as int) =~= s);
        s.len() as int
    }
}

/// Trimming takes away the white space at both ends of a text and nothing else.
pub proof fn law_trim_leaves_the_core(s: Seq<char>)
    ensures
        exists|x: int, y: int| is_core(trim(s), s, x, y),
{
    let x = lemma_trim_start(s);
    let t = s.skip(x);
    let y = lemma_trim_end(t);
    assert(t.take(y) =~= s.subrange(x, x + y));
    assert forall|i: int| x + y <= i < s.len() implies is_blank(#[trigger] s[i]) by {
        assert(s[i] == t[i - x]);
    }
    if 0 < y {
        assert(s[x] == t[0]);
        assert(s[x + y - 1] == t[y - 1]);
    }
    assert(is_core(trim(s), s, x, x + y));
}

/// What is run is the statement at the cursor without the white space round it; where that
/// is blank, it is the whole text without the white space round it.
pub proof fn law_statement_is_run_as_it_stands(s: Seq<char>, cursor: int)
    requires
        0 <= cursor,
    ensures
        ({
            let (a, b) = statement_bounds(s, cursor);
            if exists|i: int| a <= i < b && !is_blank(#[trigger] s[i]) {
                exists|x: int, y: int|
                    is_core(statement_text(s, cursor), s.subrange(a, b), x, y) && x < y
            } else {
                exists|x: int, y: int| is_core(statement_text(s, cursor), s, x, y)
            }
        }),
{
    law_statement_holds_cursor(s, cursor);
    let (a, b) = statement_bounds(s, cursor);
    let part = s.subrange(a, b);
    law_trim_leaves_the_core(part);
    law_trim_leaves_the_core(s);
    let (x, y) = choose|x: int, y: int| is_core(trim(part), part, x, y);
    if exists|i: int| a <= i < b && !is_blank(#[trigger] s[i]) {
        let i = choose|i: int| a <= i < b && !is_blank(#[trigger] s[i]);
        assert(part[i - a] == s[i]);
        assert(x < y);
        assert(is_core(statement_text(s, cursor), part, x, y));
    } else {
        if x < y {
            assert(part[x] == s[a + x]);
        }
        assert(trim(part).len() == 0);
        let (u, v) = choose|x: int, y: int| is_core(trim(s), s, x, y);
        assert(is_core(statement_text(s, cursor), s, u, v));
    }
}

} // verus!
