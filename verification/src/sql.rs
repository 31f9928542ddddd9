//! Reading and wrapping SQL text: finding the statement at the cursor, ordering a
//! query by a column, and putting a query on one line.

use vstd::prelude::*;
use vstd::utf8::encode_utf8;
use crate::edit::{ident, quote_ident};
use crate::text::{
    byte_offset, bytes_between, chars_of, is_white, join, joined, lemma_byte_offset_grows,
    lemma_byte_offset_step, text_of, trim, trim_bounds, trim_start, trimmed, white, width_of,
};

verus! {

/// Where a quoted piece ends whose inside starts at `i`: behind the first quote `q`
/// that is not doubled, or at the end of the text.
pub open spec fn quoted_end(s: Seq<char>, i: int, q: char) -> int
    decreases s.len() - i,
{
    if i >= s.len() {
        s.len() as int
    } else if s[i] != q {
        quoted_end(s, i + 1, q)
    } else if i + 1 < s.len() && s[i + 1] == q {
        quoted_end(s, i + 2, q)
    } else {
        i + 1
    }
}

/// Where the line ends that `i` is on.
pub open spec fn line_end(s: Seq<char>, i: int) -> int
    decreases s.len() - i,
{
    if i >= s.len() {
        s.len() as int
    } else if s[i] == '\n' {
        i
    } else {
        line_end(s, i + 1)
    }
}

/// Where a block comment ends whose inside starts at `i`: behind the first `*/`, or
/// at the end of the text.
pub open spec fn block_end(s: Seq<char>, i: int) -> int
    decreases s.len() - i,
{
    if i + 1 >= s.len() {
        s.len() as int
    } else if s[i] == '*' && s[i + 1] == '/' {
        i + 2
    } else {
        block_end(s, i + 1)
    }
}

/// A character that may stand in the tag of a dollar quote.
pub open spec fn is_tag_char(c: char) -> bool {
    ||| '0' <= c <= '9'
    ||| 'A' <= c <= 'Z'
    ||| 'a' <= c <= 'z'
    ||| c == '_'
}

/// Where the run of tag characters ends that starts at `i`.
pub open spec fn tag_run(s: Seq<char>, i: int) -> int
    decreases s.len() - i,
{
    if i < s.len() && is_tag_char(s[i]) {
        tag_run(s, i + 1)
    } else {
        i
    }
}

/// The length of the dollar-quote opening (`$`, tag characters, `$`) that a text
/// begins with, if it begins with one.
pub open spec fn opening_tag(s: Seq<char>) -> Option<int> {
    if s.len() > 0 && s[0] == '$' && tag_run(s, 1) < s.len() && s[tag_run(s, 1)] == '$' {
        Some(tag_run(s, 1) + 1)
    } else {
        None
    }
}

/// Where a dollar-quoted body ends that starts at `i`: behind the first `tag`, or at
/// the end of the text.
pub open spec fn dollar_end(s: Seq<char>, i: int, tag: Seq<char>) -> int
    decreases s.len() - i,
{
    if i >= s.len() {
        s.len() as int
    } else if tag.is_prefix_of(s.skip(i)) {
        i + tag.len()
    } else {
        dollar_end(s, i + 1, tag)
    }
}

/// Where the piece of SQL ends that starts at `i`: a quoted string or identifier, a
/// comment and a dollar-quoted body are one piece each, so is any other character.
pub open spec fn piece_end(s: Seq<char>, i: int) -> int {
    if s[i] == '\'' || s[i] == '"' {
        quoted_end(s, i + 1, s[i])
    } else if s[i] == '-' && i + 1 < s.len() && s[i + 1] == '-' {
        line_end(s, i + 2)
    } else if s[i] == '/' && i + 1 < s.len() && s[i + 1] == '*' {
        block_end(s, i + 2)
    } else {
        match opening_tag(s.skip(i)) {
            Some(k) => dollar_end(s, i + k, s.subrange(i, i + k)),
            None => i + 1,
        }
    }
}

/// The positions from `i` on of the semicolons that separate statements: those that
/// are a piece of their own.
pub open spec fn separators(s: Seq<char>, i: int) -> Seq<int>
    decreases s.len() - i,
{
    if 0 <= i < s.len() {
        proof {
            lemma_piece_end(s, i);
        }
        if s[i] == ';' {
            seq![i] + separators(s, i + 1)
        } else {
            separators(s, piece_end(s, i))
        }
    } else {
        Seq::empty()
    }
}

/// How many of the leading separators lie before the byte offset `cursor`.
pub open spec fn passed(s: Seq<char>, seps: Seq<int>, cursor: int) -> int
    decreases seps.len(),
{
    if seps.len() > 0 && byte_offset(s, seps[0]) < cursor {
        1 + passed(s, seps.drop_first(), cursor)
    } else {
        0
    }
}

/// The statement that holds the byte offset `cursor`, as its first position and the
/// position behind it: from the last separator before the cursor to the next one.
pub open spec fn statement_bounds(s: Seq<char>, cursor: int) -> (int, int) {
    let seps = separators(s, 0);
    let k = passed(s, seps, cursor);
    (
        if k == 0 {
            0
        } else {
            seps[k - 1] + 1
        },
        if k == seps.len() {
            s.len() as int
        } else {
            seps[k]
        },
    )
}

/// The statement at the cursor without white space round it, or the whole text where
/// that statement is blank.
pub open spec fn statement_text(s: Seq<char>, cursor: int) -> Seq<char> {
    let b = statement_bounds(s, cursor);
    let stmt = trim(s.subrange(b.0, b.1));
    if stmt.len() == 0 {
        trim(s)
    } else {
        stmt
    }
}

proof fn lemma_quoted_end(s: Seq<char>, i: int, q: char)
    requires
        0 <= i <= s.len(),
    ensures
        i <= quoted_end(s, i, q) <= s.len(),
    decreases s.len() - i,
{
    if i < s.len() {
        if s[i] != q {
            lemma_quoted_end(s, i + 1, q);
        } else if i + 1 < s.len() && s[i + 1] == q {
            lemma_quoted_end(s, i + 2, q);
        }
    }
}

proof fn lemma_line_end(s: Seq<char>, i: int)
    requires
        0 <= i <= s.len(),
    ensures
        i <= line_end(s, i) <= s.len(),
    decreases s.len() - i,
{
    if i < s.len() && s[i] != '\n' {
        lemma_line_end(s, i + 1);
    }
}

proof fn lemma_block_end(s: Seq<char>, i: int)
    requires
        0 <= i <= s.len(),
    ensures
        i <= block_end(s, i) <= s.len(),
    decreases s.len() - i,
{
    if i + 1 < s.len() {
        lemma_block_end(s, i + 1);
    }
}

proof fn lemma_tag_run(s: Seq<char>, i: int)
    requires
        0 <= i <= s.len(),
    ensures
        i <= tag_run(s, i) <= s.len(),
    decreases s.len() - i,
{
    if i < s.len() && is_tag_char(s[i]) {
        lemma_tag_run(s, i + 1);
    }
}

proof fn lemma_dollar_end(s: Seq<char>, i: int, tag: Seq<char>)
    requires
        0 <= i <= s.len(),
    ensures
        i <= dollar_end(s, i, tag) <= s.len(),
    decreases s.len() - i,
{
    if i < s.len() {
        lemma_dollar_end(s, i + 1, tag);
    }
}

/// Every piece has at least one character and ends within the text.
pub proof fn lemma_piece_end(s: Seq<char>, i: int)
    requires
        0 <= i < s.len(),
    ensures
        i < piece_end(s, i) <= s.len(),
{
    lemma_quoted_end(s, i + 1, s[i]);
    if i + 2 <= s.len() {
        lemma_line_end(s, i + 2);
        lemma_block_end(s, i + 2);
    }
    if s[i] == '$' {
        lemma_tag_run(s.skip(i), 1);
        if let Some(k) = opening_tag(s.skip(i)) {
            lemma_dollar_end(s, i + k, s.subrange(i, i + k));
        }
    }
}

fn quoted_end_at(v: &Vec<char>, from: usize, q: char) -> (r: usize)
    requires
        from <= v@.len(),
    ensures
        r == quoted_end(v@, from as int, q),
        from <= r <= v@.len(),
{
    let mut i: usize = from;
    while i < v.len()
        invariant
            from <= i <= v@.len(),
            quoted_end(v@, i as int, q) == quoted_end(v@, from as int, q),
        decreases v@.len() - i,
    {
        if v[i] == q {
            if v.len() - i > 1 && v[i + 1] == q {
                i += 2;
            } else {
                return i + 1;
            }
        } else {
            i += 1;
        }
    }
    i
}

fn line_end_at(v: &Vec<char>, from: usize) -> (r: usize)
    requires
        from <= v@.len(),
    ensures
        r == line_end(v@, from as int),
        from <= r <= v@.len(),
{
    let mut i: usize = from;
    while i < v.len() && v[i] != '\n'
        invariant
            from <= i <= v@.len(),
            line_end(v@, i as int) == line_end(v@, from as int),
        decreases v@.len() - i,
    {
        i += 1;
    }
    i
}

fn block_end_at(v: &Vec<char>, from: usize) -> (r: usize)
    requires
        from <= v@.len(),
    ensures
        r == block_end(v@, from as int),
        from <= r <= v@.len(),
{
    let mut i: usize = from;
    while v.len() - i > 1
        invariant
            from <= i <= v@.len(),
            block_end(v@, i as int) == block_end(v@, from as int),
        decreases v@.len() - i,
    {
        if v[i] == '*' && v[i + 1] == '/' {
            return i + 2;
        }
        i += 1;
    }
    v.len()
}

/// If `b` begins a dollar-quote opening tag (`$`, any of `[A-Za-z0-9_]`, `$`), the
/// tag's length; else `None`.
pub fn dollar_tag(b: &[char]) -> (r: Option<usize>)
    ensures
        (match r {
            Some(k) => opening_tag(b@) == Some(k as int) && k <= b@.len(),
            None => opening_tag(b@) is None,
        }),
{
    if b.len() == 0 || b[0] != '$' {
        return None;
    }
    let mut j: usize = 1;
    while j < b.len() && (('0' <= b[j] && b[j] <= '9') || ('A' <= b[j] && b[j] <= 'Z') || ('a'
        <= b[j] && b[j] <= 'z') || b[j] == '_')
        invariant
            1 <= j <= b@.len(),
            tag_run(b@, j as int) == tag_run(b@, 1),
        decreases b@.len() - j,
    {
        j += 1;
    }
    if j < b.len() && b[j] == '$' {
        Some(j + 1)
    } else {
        None
    }
}

fn tag_at(v: &Vec<char>, i: usize, open: usize, taglen: usize) -> (r: bool)
    requires
        i <= v@.len(),
        open + taglen <= v@.len(),
    ensures
        r == v@.subrange(open as int, open + taglen).is_prefix_of(v@.skip(i as int)),
{
    let ghost tag = v@.subrange(open as int, open + taglen);
    let ghost rest = v@.skip(i as int);
    if v.len() - i < taglen {
        return false;
    }
    let mut k: usize = 0;
    while k < taglen
        invariant
            i + taglen <= v.len(),
            open + taglen <= v.len(),
            k <= taglen,
            tag == v@.subrange(open as int, open + taglen),
            rest == v@.skip(i as int),
            forall|j: int| 0 <= j < k ==> tag[j] == rest[j],
        decreases taglen - k,
    {
        if v[i + k] != v[open + k] {
            proof {
                assert(tag[k as int] != rest[k as int]);
                assert(tag.is_prefix_of(rest) ==> rest.take(taglen as int)[k as int]
                    == tag[k as int]);
            }
            return false;
        }
        k += 1;
    }
    proof {
        assert(tag =~= rest.subrange(0, tag.len() as int));
    }
    true
}

fn dollar_end_at(v: &Vec<char>, from: usize, open: usize, taglen: usize) -> (r: usize)
    requires
        open + taglen <= from <= v@.len(),
    ensures
        r == dollar_end(v@, from as int, v@.subrange(open as int, open + taglen)),
        from <= r <= v@.len(),
{
    let mut i: usize = from;
    while i < v.len()
        invariant
            from <= i <= v@.len(),
            open + taglen <= from,
            dollar_end(v@, i as int, v@.subrange(open as int, open + taglen)) == dollar_end(
                v@,
                from as int,
                v@.subrange(open as int, open + taglen),
            ),
        decreases v@.len() - i,
    {
        if tag_at(v, i, open, taglen) {
            return i + taglen;
        }
        i += 1;
    }
    i
}

fn piece_end_at(v: &Vec<char>, i: usize) -> (r: usize)
    requires
        i < v@.len(),
    ensures
        r == piece_end(v@, i as int),
        i < r <= v@.len(),
{
    proof {
        lemma_piece_end(v@, i as int);
    }
    let c = v[i];
    let more = v.len() - i > 1;
    if c == '\'' || c == '"' {
        quoted_end_at(v, i + 1, c)
    } else if c == '-' && more && v[i + 1] == '-' {
        line_end_at(v, i + 2)
    } else if c == '/' && more && v[i + 1] == '*' {
        block_end_at(v, i + 2)
    } else {
        let tail = vstd::slice::slice_subrange(v.as_slice(), i, v.len());
        proof {
            assert(tail@ == v@.skip(i as int));
        }
        match dollar_tag(tail) {
            Some(k) => dollar_end_at(v, i + k, i, k),
            None => i + 1,
        }
    }
}

/// The single SQL statement that holds the byte offset `cursor`, trimmed. Statements
/// are split on top-level `;`, honoring single and double quotes, line (`--`) and
/// block (`/* */`) comments, and dollar-quoted bodies (`$$ .. $$`, `$tag$ .. $tag$`).
/// Falls back to the whole trimmed input where the picked statement is empty.
pub fn statement_at(sql: &str, cursor: usize) -> (r: String)
    ensures
        r@ == statement_text(sql@, cursor as int),
{
    let v = chars_of(sql);
    let mut start: usize = 0;
    let mut end: usize = v.len();
    let mut i: usize = 0;
    let mut bytes: usize = 0;
    let ghost mut done: Seq<int> = Seq::empty();
    let ghost all = separators(v@, 0);
    let ghost goal = passed(v@, all, cursor as int);
    proof {
        assert(all.skip(0) == all);
    }
    while i < v.len()
        invariant_except_break
            i <= v@.len(),
            end == v@.len(),
            all.skip(done.len() as int) == separators(v@, i as int),
        invariant
            v@ == sql@,
            all == separators(v@, 0),
            goal == passed(v@, all, cursor as int),
            encode_utf8(v@).len() <= usize::MAX,
            i <= v@.len(),
            bytes == byte_offset(v@, i as int),
            0 <= done.len() <= all.len(),
            done == all.take(done.len() as int),
            goal == done.len() + passed(v@, all.skip(done.len() as int), cursor as int),
            start == (if done.len() == 0 {
                0
            } else {
                done.last() + 1
            }),
            start <= i,
        ensures
            start <= end <= v@.len(),
            goal == done.len(),
            end == (if goal == all.len() {
                v@.len() as int
            } else {
                all[goal]
            }),
        decreases v@.len() - i,
    {
        if v[i] == ';' {
            proof {
                assert(all.skip(done.len() as int)[0] == i);
                assert(all[done.len() as int] == i);
            }
            if cursor <= bytes {
                end = i;
                break;
            }
            proof {
                assert(all.skip(done.len() as int).drop_first() == all.skip(done.len() as int + 1));
                assert(all.skip(done.len() as int).drop_first() == separators(v@, i + 1));
                done = done.push(i as int);
                assert(done == all.take(done.len() as int));
            }
            start = i + 1;
            proof {
                lemma_byte_offset_grows(v@, i + 1, v@.len() as int);
                assert(v@.take(v@.len() as int) == v@);
            }
            bytes = bytes + bytes_between(&v, i, i + 1);
            i += 1;
        } else {
            let next = piece_end_at(&v, i);
            proof {
                lemma_byte_offset_grows(v@, next as int, v@.len() as int);
                assert(v@.take(v@.len() as int) == v@);
            }
            bytes = bytes + bytes_between(&v, i, next);
            i = next;
        }
    }
    let (a, b) = trim_bounds(&v, start, end);
    if a == b {
        let (x, y) = trim_bounds(&v, 0, v.len());
        proof {
            assert(v@.subrange(0, v@.len() as int) == v@);
            assert(v@.subrange(start as int, end as int) == v@.subrange(
                statement_bounds(v@, cursor as int).0,
                statement_bounds(v@, cursor as int).1,
            ));
        }
        text_of(&v, x, y)
    } else {
        text_of(&v, a, b)
    }
}

/// Positions of semicolons from `i` on, in the order in which they stand.
pub open spec fn semicolons_from(s: Seq<char>, seps: Seq<int>, i: int) -> bool {
    &&& forall|k: int|
        0 <= k < seps.len() ==> i <= #[trigger] seps[k] < s.len() && s[seps[k]] == ';'
    &&& forall|j: int, k: int| 0 <= j < k < seps.len() ==> seps[j] < seps[k]
}

/// The separators of a text are semicolons, in the order in which they stand.
pub proof fn law_separators_are_semicolons(s: Seq<char>, i: int)
    requires
        0 <= i <= s.len(),
    ensures
        semicolons_from(s, separators(s, i), i),
    decreases s.len() - i,
{
    if i < s.len() {
        lemma_piece_end(s, i);
        if s[i] == ';' {
            law_separators_are_semicolons(s, i + 1);
            let rest = separators(s, i + 1);
            let all = seq![i] + rest;
            assert(separators(s, i) == all);
            assert forall|k: int| 0 <= k < all.len() implies i <= #[trigger] all[k] < s.len()
                && s[all[k]] == ';' by {
                if k > 0 {
                    assert(all[k] == rest[k - 1]);
                }
            }
            assert forall|j: int, k: int| 0 <= j < k < all.len() implies all[j] < all[k] by {
                assert(all[k] == rest[k - 1]);
                if j > 0 {
                    assert(all[j] == rest[j - 1]);
                }
            }
        } else {
            let next = piece_end(s, i);
            law_separators_are_semicolons(s, next);
            assert(separators(s, i) == separators(s, next));
        }
    }
}

proof fn lemma_passed(s: Seq<char>, seps: Seq<int>, cursor: int)
    ensures
        0 <= passed(s, seps, cursor) <= seps.len(),
        forall|j: int|
            0 <= j < passed(s, seps, cursor) ==> byte_offset(s, #[trigger] seps[j]) < cursor,
        passed(s, seps, cursor) < seps.len() ==> byte_offset(s, seps[passed(s, seps, cursor)])
            >= cursor,
    decreases seps.len(),
{
    if seps.len() > 0 && byte_offset(s, seps[0]) < cursor {
        lemma_passed(s, seps.drop_first(), cursor);
        assert forall|j: int| 0 <= j < passed(s, seps, cursor) implies byte_offset(
            s,
            #[trigger] seps[j],
        ) < cursor by {
            if j > 0 {
                assert(seps[j] == seps.drop_first()[j - 1]);
            }
        }
    }
}

/// The picked statement holds the cursor (or the end of the text, where the cursor lies
/// behind it), and no separator lies in it.
pub proof fn law_statement_holds_cursor(s: Seq<char>, cursor: int)
    requires
        0 <= cursor,
    ensures
        ({
            let (a, b) = statement_bounds(s, cursor);
            let end = byte_offset(s, s.len() as int);
            &&& 0 <= a <= b <= s.len()
            &&& byte_offset(s, a) <= (if cursor < end {
                cursor
            } else {
                end as int
            }) <= byte_offset(s, b)
            &&& forall|k: int|
                0 <= k < separators(s, 0).len() ==> !(a <= #[trigger] separators(s, 0)[k] < b)
        }),
{
    law_separators_are_semicolons(s, 0);
    let seps = separators(s, 0);
    lemma_passed(s, seps, cursor);
    let k = passed(s, seps, cursor);
    let (a, b) = statement_bounds(s, cursor);
    let end = byte_offset(s, s.len() as int);
    if k > 0 {
        assert(byte_offset(s, seps[k - 1]) < cursor);
        lemma_byte_offset_step(s, seps[k - 1]);
        vstd::utf8::char_is_scalar(';');
        lemma_byte_offset_grows(s, a, s.len() as int);
        if k < seps.len() {
            assert(seps[k - 1] < seps[k]);
        }
    } else {
        assert(s.take(0) =~= Seq::<char>::empty());
        assert(byte_offset(s, 0) == 0);
    }
    lemma_byte_offset_grows(s, b, s.len() as int);
    assert forall|j: int| 0 <= j < seps.len() implies !(a <= #[trigger] seps[j] < b) by {
        if j < k {
            if j < k - 1 {
                assert(seps[j] < seps[k - 1]);
            }
        } else if k < seps.len() {
            if j > k {
                assert(seps[k] < seps[j]);
            }
        }
    }
}

/// Where the word ends that starts at `i`.
pub open spec fn word_end(s: Seq<char>, i: int) -> int
    decreases s.len() - i,
{
    if i < s.len() && !is_white(s[i]) {
        word_end(s, i + 1)
    } else {
        i
    }
}

/// Leading white space only shortens a text.
pub proof fn lemma_trim_start_len(s: Seq<char>)
    ensures
        trim_start(s).len() <= s.len(),
        trim_start(s).len() > 0 ==> !is_white(trim_start(s)[0]),
    decreases s.len(),
{
    if s.len() > 0 && is_white(s[0]) {
        lemma_trim_start_len(s.drop_first());
    }
}

pub proof fn lemma_word_end(s: Seq<char>, i: int)
    requires
        0 <= i <= s.len(),
    ensures
        i <= word_end(s, i) <= s.len(),
        i < s.len() && !is_white(s[i]) ==> i < word_end(s, i),
    decreases s.len() - i,
{
    if i < s.len() && !is_white(s[i]) {
        lemma_word_end(s, i + 1);
    }
}

/// The words of a text: its longest runs without white space.
pub open spec fn words(s: Seq<char>) -> Seq<Seq<char>>
    decreases s.len(),
{
    let t = trim_start(s);
    if t.len() == 0 {
        Seq::empty()
    } else {
        proof {
            lemma_trim_start_len(s);
            lemma_word_end(t, 0);
        }
        seq![t.take(word_end(t, 0))] + words(t.skip(word_end(t, 0)))
    }
}

/// The words of a text on one line, one space apart.
pub open spec fn collapsed(s: Seq<char>) -> Seq<char> {
    joined(words(s), " "@)
}

/// The longest text, in bytes, that is shown on one line in full.
pub const LINE_BYTES: usize = 120;

/// Whether a line is cut behind the `k`-th character: it is the last one that still fits.
pub open spec fn is_cut(s: Seq<char>, k: int) -> bool {
    &&& 0 <= k <= s.len()
    &&& byte_offset(s, k) <= LINE_BYTES
    &&& k < s.len() ==> byte_offset(s, k + 1) > LINE_BYTES
}

/// The text on one line: its words, cut behind as many whole characters as a line holds,
/// with an ellipsis where it was cut.
pub open spec fn line_text(s: Seq<char>) -> Seq<char> {
    let c = collapsed(s);
    if encode_utf8(c).len() <= LINE_BYTES {
        c
    } else {
        c.take(choose|k: int| #[trigger] is_cut(c, k)).push('\u{2026}')
    }
}

fn split_words(v: &Vec<char>) -> (r: Vec<String>)
    ensures
        r.deep_view() == words(v@),
{
    let mut out: Vec<String> = Vec::new();
    let mut i: usize = 0;
    proof {
        assert(v@.skip(0) =~= v@);
        assert(out.deep_view() + words(v@.skip(0)) =~= words(v@));
    }
    while i < v.len()
        invariant
            i <= v@.len(),
            out.deep_view() + words(v@.skip(i as int)) == words(v@),
        decreases v@.len() - i,
    {
        if white(v[i]) {
            proof {
                assert(v@.skip(i as int).drop_first() =~= v@.skip(i + 1));
                assert(trim_start(v@.skip(i as int)) == trim_start(v@.skip(i + 1)));
                assert(words(v@.skip(i as int)) == words(v@.skip(i + 1)));
            }
            i += 1;
        } else {
            let ghost t = v@.skip(i as int);
            let mut e: usize = i;
            while e < v.len() && !white(v[e])
                invariant
                    i <= e <= v@.len(),
                    t == v@.skip(i as int),
                    word_end(t, e - i) == word_end(t, 0),
                decreases v@.len() - e,
            {
                proof {
                    assert(t[e - i] == v@[e as int]);
                }
                e += 1;
            }
            proof {
                if e < v@.len() {
                    assert(t[e - i] == v@[e as int]);
                }
                assert(t[0] == v@[i as int]);
                lemma_word_end(t, 0);
                assert(trim_start(t) == t);
                assert(word_end(t, 0) == e - i);
                assert(t.take(e - i) =~= v@.subrange(i as int, e as int));
                assert(t.skip(e - i) =~= v@.skip(e as int));
                assert(i < e);
            }
            let ghost before = out.deep_view();
            out.push(text_of(v, i, e));
            proof {
                assert(out.deep_view() =~= before.push(v@.subrange(i as int, e as int)));
                assert(before + words(t) =~= out.deep_view() + words(v@.skip(e as int)));
            }
            i = e;
        }
    }
    proof {
        assert(v@.skip(i as int) =~= Seq::<char>::empty());
        assert(words(Seq::<char>::empty()) =~= Seq::<Seq<char>>::empty());
        assert(out.deep_view() + Seq::<Seq<char>>::empty() =~= out.deep_view());
    }
    out
}

fn collapse(sql: &str) -> (r: String)
    ensures
        r@ == collapsed(sql@),
{
    let v = chars_of(sql);
    join(&split_words(&v), " ")
}

/// Where a line is cut.
fn cut_of(v: &Vec<char>) -> (r: usize)
    ensures
        is_cut(v@, r as int),
{
    let mut k: usize = 0;
    let mut bytes: usize = 0;
    proof {
        assert(v@.take(0) =~= Seq::<char>::empty());
    }
    while k < v.len()
        invariant
            k <= v.len(),
            bytes == byte_offset(v@, k as int),
            bytes <= LINE_BYTES,
        decreases v@.len() - k,
    {
        proof {
            lemma_byte_offset_step(v@, k as int);
        }
        let next: usize = bytes + width_of(v[k]);
        if next > LINE_BYTES {
            return k;
        }
        bytes = next;
        k += 1;
    }
    k
}

proof fn lemma_one_cut(s: Seq<char>, i: int, j: int)
    requires
        is_cut(s, i),
        is_cut(s, j),
    ensures
        i == j,
{
    if i < j {
        if i + 1 < j {
            lemma_byte_offset_grows(s, i + 1, j);
        }
    } else if j < i {
        if j + 1 < i {
            lemma_byte_offset_grows(s, j + 1, i);
        }
    }
}

/// Collapses a (possibly multi-line) SQL text to a single trimmed line. What does not fit
/// into `LINE_BYTES` bytes is cut off between two characters, with an ellipsis in its place.
pub fn oneline(sql: &str) -> (r: String)
    ensures
        r@ == line_text(sql@),
{
    let line = collapse(sql);
    let v = chars_of(line.as_str());
    proof {
        assert(v@.take(0) =~= Seq::<char>::empty());
        assert(v@.take(v@.len() as int) =~= v@);
    }
    if bytes_between(&v, 0, v.len()) <= LINE_BYTES {
        return line;
    }
    let k = cut_of(&v);
    let mut r = text_of(&v, 0, k);
    r.push('\u{2026}');
    proof {
        let c = collapsed(sql@);
        let j = choose|j: int| #[trigger] is_cut(c, j);
        lemma_one_cut(c, j, k as int);
        assert(v@.subrange(0, k as int) =~= c.take(j));
    }
    r
}

/// Whether a text is one line with its words one space apart: it starts with a word, and the
/// only white space in it is a space between two other characters.
pub open spec fn is_line(s: Seq<char>) -> bool {
    forall|i: int|
        0 <= i < s.len() && is_white(#[trigger] s[i]) ==> s[i] == ' ' && 0 < i && !is_white(
            s[i - 1],
        )
}

proof fn lemma_words(s: Seq<char>)
    ensures
        forall|k: int|
            0 <= k < words(s).len() ==> (#[trigger] words(s)[k]).len() > 0 && forall|i: int|
                0 <= i < words(s)[k].len() ==> !is_white(#[trigger] words(s)[k][i]),
    decreases s.len(),
{
    let t = trim_start(s);
    if t.len() > 0 {
        lemma_trim_start_len(s);
        lemma_word_end(t, 0);
        lemma_word_is_black(t, 0);
        let rest = t.skip(word_end(t, 0));
        lemma_words(rest);
        assert forall|k: int| 0 <= k < words(s).len() implies (#[trigger] words(s)[k]).len() > 0
            && forall|i: int|
            0 <= i < words(s)[k].len() ==> !is_white(#[trigger] words(s)[k][i]) by {
            if k > 0 {
                assert(words(s)[k] == words(rest)[k - 1]);
            }
        }
    }
}

proof fn lemma_word_is_black(s: Seq<char>, i: int)
    requires
        0 <= i <= s.len(),
    ensures
        forall|j: int| i <= j < word_end(s, i) ==> !is_white(#[trigger] s[j]),
    decreases s.len() - i,
{
    if i < s.len() && !is_white(s[i]) {
        lemma_word_is_black(s, i + 1);
    }
}

proof fn lemma_joined_is_line(parts: Seq<Seq<char>>)
    requires
        forall|k: int|
            0 <= k < parts.len() ==> (#[trigger] parts[k]).len() > 0 && forall|i: int|
                0 <= i < parts[k].len() ==> !is_white(#[trigger] parts[k][i]),
    ensures
        is_line(joined(parts, " "@)),
        parts.len() > 0 ==> joined(parts, " "@).len() > 0 && !is_white(
            joined(parts, " "@).last(),
        ),
    decreases parts.len(),
{
    if parts.len() > 1 {
        let front = parts.drop_last();
        assert forall|k: int| 0 <= k < front.len() implies (#[trigger] front[k]).len() > 0
            && forall|i: int| 0 <= i < front[k].len() ==> !is_white(#[trigger] front[k][i]) by {
            assert(front[k] == parts[k]);
        }
        lemma_joined_is_line(front);
        reveal_strlit(" ");
        let head = joined(front, " "@);
        let word = parts[parts.len() - 1];
        let all = joined(parts, " "@);
        let n = head.len() as int;
        assert(all == head + " "@ + word);
        assert forall|i: int| 0 <= i < all.len() && is_white(#[trigger] all[i]) implies all[i]
            == ' ' && 0 < i && !is_white(all[i - 1]) by {
            if i < n {
                assert(all[i] == head[i]);
                if 0 < i {
                    assert(all[i - 1] == head[i - 1]);
                }
            } else if i == n {
                assert(all[i - 1] == head.last());
            } else {
                assert(all[i] == word[i - n - 1]);
            }
        }
        assert(all.last() == word[word.len() - 1]);
    } else if parts.len() == 1 {
        assert(parts[0].last() == parts[0][parts[0].len() - 1]);
    }
}

/// Whatever the text, it is shown on one line: there is no line break in it, no space at its
/// start and no two in a row. A text that fits is shown in full, with its words one space
/// apart; of another one whole characters from its start are, as many as fit, and an
/// ellipsis.
pub proof fn law_a_line_has_no_gaps(s: Seq<char>)
    ensures
        is_line(line_text(s)),
        encode_utf8(collapsed(s)).len() <= LINE_BYTES ==> line_text(s) == collapsed(s),
        encode_utf8(collapsed(s)).len() > LINE_BYTES ==> line_text(s).last() == '\u{2026}'
            && line_text(s).drop_last().is_prefix_of(collapsed(s)) && encode_utf8(
            line_text(s).drop_last(),
        ).len() <= LINE_BYTES,
{
    let c = collapsed(s);
    lemma_words(s);
    lemma_joined_is_line(words(s));
    if encode_utf8(c).len() > LINE_BYTES {
        lemma_cut_exists(c, 0);
        let k = choose|k: int| #[trigger] is_cut(c, k);
        let r = line_text(s);
        assert(r.drop_last() =~= c.take(k));
        assert forall|i: int| 0 <= i < r.len() && is_white(#[trigger] r[i]) implies r[i] == ' '
            && 0 < i && !is_white(r[i - 1]) by {
            if i < k {
                assert(r[i] == c[i]);
                if 0 < i {
                    assert(r[i - 1] == c[i - 1]);
                }
            }
        }
    }
}

pub(crate) proof fn lemma_cut_exists(s: Seq<char>, k: int)
    requires
        0 <= k <= s.len(),
        byte_offset(s, k) <= LINE_BYTES,
    ensures
        exists|j: int| #[trigger] is_cut(s, j),
    decreases s.len() - k,
{
    if is_cut(s, k) {
    } else {
        lemma_cut_exists(s, k + 1);
    }
}

/// The order of a result by one of its columns.
#[derive(Debug, Clone, Copy, PartialEq, Eq, Structural)]
pub enum ColumnSort {
    /// As the query gives it.
    Default,
    Ascending,
    Descending,
}

/// A text without the semicolons at its end.
pub open spec fn without_semicolons(s: Seq<char>) -> Seq<char>
    decreases s.len(),
{
    if s.len() > 0 && s.last() == ';' {
        without_semicolons(s.drop_last())
    } else {
        s
    }
}

/// A query without white space round it and without semicolons at its end.
pub open spec fn bare_query(s: Seq<char>) -> Seq<char> {
    without_semicolons(trim(s))
}

/// A query without white space round it and without semicolons at its end.
pub fn bare(sql: &str) -> (r: String)
    ensures
        r@ == bare_query(sql@),
{
    let t = trimmed(sql);
    let v = chars_of(t.as_str());
    let mut e: usize = v.len();
    proof {
        assert(v@.take(v@.len() as int) =~= v@);
    }
    while e > 0 && v[e - 1] == ';'
        invariant
            e <= v@.len(),
            without_semicolons(v@.take(e as int)) == without_semicolons(v@),
        decreases e,
    {
        proof {
            assert(v@.take(e as int).drop_last() =~= v@.take(e - 1));
        }
        e -= 1;
    }
    proof {
        assert(v@.subrange(0, e as int) =~= v@.take(e as int));
    }
    text_of(&v, 0, e)
}

/// A query wrapped so that its result is ordered by one of its columns.
pub open spec fn ordered_query(base: Seq<char>, col: Seq<char>, sort: ColumnSort) -> Seq<char> {
    let wrapped = "SELECT * FROM ("@ + bare_query(base) + ") AS _zdb ORDER BY "@ + ident(col);
    match sort {
        ColumnSort::Default => base,
        ColumnSort::Ascending => wrapped + " ASC"@,
        ColumnSort::Descending => wrapped + " DESC"@,
    }
}

/// Wraps a query so that it is ordered by one of its result columns. `Default` clears
/// the sort: the base query is returned unchanged.
pub fn order_by_sql(base: &str, col: &str, sort: ColumnSort) -> (r: String)
    ensures
        r@ == ordered_query(base@, col@, sort),
{
    let wrapped = "SELECT * FROM (".to_owned().concat(bare(base).as_str()).concat(
        ") AS _zdb ORDER BY ",
    ).concat(quote_ident(col).as_str());
    match sort {
        ColumnSort::Default => base.to_owned(),
        ColumnSort::Ascending => wrapped.concat(" ASC"),
        ColumnSort::Descending => wrapped.concat(" DESC"),
    }
}

/// What `sqlformat::format` makes of a text, with keywords in upper or in lower case, every
/// other option at its default and no parameters.
pub uninterp spec fn formatted(sql: Seq<char>, uppercase: bool) -> Seq<char>;

/// `sqlformat::format` with keywords in upper or in lower case, every other option at its
/// default and no parameters: the result depends on the text and that choice alone.
#[verifier::external_body]
fn sqlformat_format(sql: &str, uppercase: bool) -> (r: String)
    ensures
        r@ == formatted(sql@, uppercase),
{
    let opts = sqlformat::FormatOptions { uppercase: Some(uppercase), ..Default::default() };
    sqlformat::format(sql, &sqlformat::QueryParams::None, &opts)
}

/// Pretty-prints SQL: two spaces of indent, upper-case keywords, one blank line between
/// statements.
pub fn format_sql(sql: &str) -> (r: String)
    ensures
        r@ == formatted(sql@, true),
{
    sqlformat_format(sql, true)
}

} // verus!
