//! Texts on one line: which words they keep and where they are cut.

use vstd::prelude::*;
use vstd::utf8::encode_utf8;
use crate::readback::lemma_joined_front;
use crate::script_laws::is_blank;
use crate::sql::{
    collapsed, is_cut, lemma_cut_exists, lemma_trim_start_len, lemma_word_end, line_text,
    word_end, words,
};
use crate::text::{is_white, joined, trim_start};

verus! {

/// Whether a text has a character that is not white space.
pub open spec fn has_word(s: Seq<char>) -> bool {
    exists|i: int| 0 <= i < s.len() && !is_blank(#[trigger] s[i])
}

proof fn lemma_blank_is_white(c: char)
    ensures
        is_blank(c) == is_white(c),
{
}

proof fn lemma_words_of_blank(s: Seq<char>)
    ensures
        words(s).len() > 0 <==> has_word(s),
    decreases s.len(),
{
    lemma_trim_start_len(s);
    if s.len() > 0 {
        lemma_blank_is_white(s[0]);
        if is_white(s[0]) {
            let more = s.drop_first();
            lemma_words_of_blank(more);
            assert(words(s) == words(more)) by {
                lemma_same_start(s, more);
            }
            if has_word(more) {
                let i = choose|i: int| 0 <= i < more.len() && !is_blank(#[trigger] more[i]);
                assert(s[i + 1] == more[i]);
            }
            if has_word(s) {
                let i = choose|i: int| 0 <= i < s.len() && !is_blank(#[trigger] s[i]);
                assert(more[i - 1] == s[i]);
            }
        } else {
            assert(trim_start(s) == s);
            assert(!is_blank(s[0]));
        }
    }
}

proof fn lemma_same_start(a: Seq<char>, b: Seq<char>)
    requires
        trim_start(a) == trim_start(b),
    ensures
        words(a) == words(b),
{
}

proof fn lemma_word_end_in_front(a: Seq<char>, b: Seq<char>, i: int)
    requires
        0 <= i <= a.len(),
        b.len() > 0,
        is_white(b[0]),
    ensures
        word_end(a + b, i) == word_end(a, i),
    decreases a.len() - i,
{
    if i < a.len() {
        assert((a + b)[i] == a[i]);
        if !is_white(a[i]) {
            lemma_word_end_in_front(a, b, i + 1);
        }
    } else {
        assert((a + b)[i] == b[0]);
    }
}

proof fn lemma_words_of_both(a: Seq<char>, c: char, b: Seq<char>)
    requires
        is_white(c),
    ensures
        words(a + seq![c] + b) == words(a) + words(b),
    decreases a.len(),
{
    let all = a + seq![c] + b;
    if a.len() == 0 {
        assert(all.drop_first() =~= b);
        assert(all[0] == c);
        lemma_same_start(all, b);
        assert(words(a).len() == 0);
        assert(words(a) + words(b) =~= words(b));
    } else if is_white(a[0]) {
        let more = a.drop_first();
        assert(all.drop_first() =~= more + seq![c] + b);
        assert(all[0] == a[0]);
        lemma_words_of_both(more, c, b);
        lemma_same_start(a, more);
        lemma_same_start(all, more + seq![c] + b);
    } else {
        let tail = seq![c] + b;
        let e = word_end(a, 0);
        assert(all =~= a + tail);
        assert(all[0] == a[0]);
        assert(trim_start(all) == all);
        assert(trim_start(a) == a);
        lemma_word_end(a, 0);
        lemma_word_end_in_front(a, tail, 0);
        assert(all.take(e) =~= a.take(e));
        assert(all.skip(e) =~= a.skip(e) + seq![c] + b);
        lemma_words_of_both(a.skip(e), c, b);
        assert(words(all) =~= words(a) + words(b));
    }
}

proof fn lemma_joined_both(x: Seq<Seq<char>>, y: Seq<Seq<char>>, sep: Seq<char>)
    requires
        x.len() > 0,
        y.len() > 0,
    ensures
        joined(x + y, sep) == joined(x, sep) + sep + joined(y, sep),
    decreases x.len(),
{
    let all = x + y;
    lemma_joined_front(all, sep);
    if x.len() == 1 {
        assert(all.drop_first() =~= y);
    } else {
        lemma_joined_front(x, sep);
        lemma_joined_both(x.drop_first(), y, sep);
        assert(all.drop_first() =~= x.drop_first() + y);
        assert(joined(all, sep) =~= joined(x, sep) + sep + joined(y, sep));
    }
}

/// A word stays as it is.
pub proof fn law_a_word_stays(s: Seq<char>)
    requires
        forall|i: int| 0 <= i < s.len() ==> !is_blank(#[trigger] s[i]),
    ensures
        collapsed(s) == s,
{
    if s.len() == 0 {
        assert(words(s).len() == 0);
        assert(s =~= Seq::<char>::empty());
    } else {
        assert(!is_blank(s[0]));
        assert(trim_start(s) == s);
        lemma_whole_word(s, 0);
        assert(s.take(s.len() as int) =~= s);
        assert(s.skip(s.len() as int) =~= Seq::<char>::empty());
        assert(words(Seq::<char>::empty()).len() == 0);
        assert(words(s) =~= seq![s]);
    }
}

proof fn lemma_whole_word(s: Seq<char>, i: int)
    requires
        0 <= i <= s.len(),
        forall|i: int| 0 <= i < s.len() ==> !is_blank(#[trigger] s[i]),
    ensures
        word_end(s, i) == s.len(),
    decreases s.len() - i,
{
    if i < s.len() {
        assert(!is_blank(s[i]));
        lemma_whole_word(s, i + 1);
    }
}

/// White space between words becomes one space, and that before the first and behind the last
/// word is gone: round any white space in it, a text is put on one line part by part.
pub proof fn law_gaps_become_one_space(a: Seq<char>, c: char, b: Seq<char>)
    requires
        is_blank(c),
    ensures
        collapsed(a + seq![c] + b) == (if !has_word(a) {
            collapsed(b)
        } else if !has_word(b) {
            collapsed(a)
        } else {
            collapsed(a) + seq![' '] + collapsed(b)
        }),
{
    lemma_words_of_both(a, c, b);
    lemma_words_of_blank(a);
    lemma_words_of_blank(b);
    reveal_strlit(" ");
    assert(" "@ =~= seq![' ']);
    if !has_word(a) {
        assert(words(a) + words(b) =~= words(b));
    } else if !has_word(b) {
        assert(words(a) + words(b) =~= words(a));
    } else {
        lemma_joined_both(words(a), words(b), " "@);
    }
}

/// A line of at most 120 bytes is shown in full; a longer one is cut behind the last character
/// that still fits, with an ellipsis.
pub proof fn law_long_lines_are_cut(s: Seq<char>)
    ensures
        encode_utf8(collapsed(s)).len() <= 120 ==> line_text(s) == collapsed(s),
        encode_utf8(collapsed(s)).len() > 120 ==> exists|k: int|
            0 <= k < collapsed(s).len() && #[trigger] collapsed(s).take(k).push('\u{2026}')
                == line_text(s) && encode_utf8(collapsed(s).take(k)).len() <= 120 && encode_utf8(
                collapsed(s).take(k + 1),
            ).len() > 120,
{
    let c = collapsed(s);
    if encode_utf8(c).len() > 120 {
        assert(c.take(0) =~= Seq::<char>::empty());
        assert(encode_utf8(Seq::<char>::empty()).len() == 0);
        lemma_cut_exists(c, 0);
        let k = choose|k: int| #[trigger] is_cut(c, k);
        assert(c.take(c.len() as int) =~= c);
        assert(k < c.len());
        assert(c.take(k).push('\u{2026}') == line_text(s));
    }
}

} // verus!
