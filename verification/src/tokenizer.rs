//! Splitting a text into tokens.

use vstd::prelude::*;
use crate::text::{chars_of, is_separator, separator};

verus! {

/// Where the run of characters that are no separators, begun at `i`, ends:
/// the first index from `i` on that holds a separator, or the length of `s`.
pub open spec fn word_end(s: Seq<char>, i: int) -> int
    decreases s.len() - i,
{
    if 0 <= i < s.len() && !is_separator(s[i]) {
        word_end(s, i + 1)
    } else {
        i
    }
}

/// Tells whether a token starts at `i`: the character there is no
/// separator, and the one before it, if there is one, is.
pub open spec fn starts_word(s: Seq<char>, i: int) -> bool {
    &&& 0 <= i < s.len()
    &&& !is_separator(s[i])
    &&& (i == 0 || is_separator(s[i - 1]))
}

/// The tokens of `s` that start at `i` or later, in order.
pub open spec fn tokens_from(s: Seq<char>, i: int) -> Seq<Seq<char>>
    decreases s.len() - i,
{
    if i < 0 || i >= s.len() {
        Seq::empty()
    } else if starts_word(s, i) {
        seq![s.subrange(i, word_end(s, i))] + tokens_from(s, i + 1)
    } else {
        tokens_from(s, i + 1)
    }
}

/// The tokens of `s`: its maximal runs of characters that are no
/// separators, in the order in which they stand in `s`.
pub open spec fn tokens_of(s: Seq<char>) -> Seq<Seq<char>> {
    tokens_from(s, 0)
}

/// A word: not empty, and without a separator.
pub open spec fn is_word(w: Seq<char>) -> bool {
    &&& w.len() > 0
    &&& forall|k: int| 0 <= k < w.len() ==> !is_separator(#[trigger] w[k])
}

/// `word_end(s, i)` lies between `i` and the length of `s`, no separator
/// stands before it, and one stands at it unless `s` ends there.
pub proof fn lemma_word_end(s: Seq<char>, i: int)
    requires
        0 <= i <= s.len(),
    ensures
        i <= word_end(s, i) <= s.len(),
        forall|k: int| i <= k < word_end(s, i) ==> !is_separator(#[trigger] s[k]),
        word_end(s, i) < s.len() ==> is_separator(s[word_end(s, i)]),
        i < s.len() && !is_separator(s[i]) ==> i < word_end(s, i),
    decreases s.len() - i,
{
    if i < s.len() && !is_separator(s[i]) {
        lemma_word_end(s, i + 1);
    }
}

/// No token starts inside a run of characters that are no separators.
pub proof fn lemma_no_start_inside(s: Seq<char>, i: int, j: int)
    requires
        0 <= i < j <= s.len(),
        forall|k: int| i <= k < j ==> !is_separator(#[trigger] s[k]),
    ensures
        tokens_from(s, i + 1) == tokens_from(s, j),
    decreases j - i,
{
    if i + 1 < j {
        assert(!is_separator(s[i]));
        assert(!starts_word(s, i + 1));
        lemma_no_start_inside(s, i + 1, j);
    }
}

/// Every token is a word.
pub proof fn lemma_tokens_are_words(s: Seq<char>, i: int)
    requires
        0 <= i,
    ensures
        forall|k: int| 0 <= k < tokens_from(s, i).len() ==> is_word(#[trigger] tokens_from(s, i)[k]),
    decreases s.len() - i,
{
    if i < s.len() {
        lemma_tokens_are_words(s, i + 1);
        if starts_word(s, i) {
            lemma_word_end(s, i);
            let w = s.subrange(i, word_end(s, i));
            assert(is_word(w));
            let rest = tokens_from(s, i + 1);
            assert forall|k: int| 0 <= k < tokens_from(s, i).len() implies is_word(
                #[trigger] tokens_from(s, i)[k],
            ) by {
                if k > 0 {
                    assert(tokens_from(s, i)[k] == rest[k - 1]);
                } else {
                    assert(tokens_from(s, i)[k] == w);
                }
            }
        } else {
            assert(tokens_from(s, i) == tokens_from(s, i + 1));
        }
    }
}

/// Where one text ends with a separator or the next begins with one, or
/// one of them is empty, a run that starts in the first ends where it ends
/// in the first alone.
proof fn lemma_word_end_left(a: Seq<char>, b: Seq<char>, i: int)
    requires
        0 <= i <= a.len(),
        a.len() == 0 || b.len() == 0 || is_separator(a.last()) || is_separator(b[0]),
        i < a.len(),
    ensures
        word_end(a + b, i) == word_end(a, i),
    decreases a.len() - i,
{
    let s = a + b;
    assert(s[i] == a[i]);
    if !is_separator(a[i]) {
        if i + 1 < a.len() {
            lemma_word_end_left(a, b, i + 1);
        } else {
            assert(a.last() == a[i]);
            if b.len() > 0 {
                assert(s[i + 1] == b[0]);
            }
        }
    }
}

/// A run in the second of two texts ends where it ends in the second alone.
proof fn lemma_word_end_right(a: Seq<char>, b: Seq<char>, i: int)
    requires
        0 <= i <= b.len(),
    ensures
        word_end(a + b, a.len() + i) == a.len() + word_end(b, i),
    decreases b.len() - i,
{
    let s = a + b;
    if i < b.len() {
        assert(s[a.len() + i] == b[i]);
        if !is_separator(b[i]) {
            lemma_word_end_right(a, b, i + 1);
        }
    }
}

/// The tokens from an index in the second of two texts on are those of the
/// second alone, where no token can reach from the first into the second.
proof fn lemma_tokens_from_right(a: Seq<char>, b: Seq<char>, i: int)
    requires
        0 <= i <= b.len(),
        a.len() == 0 || b.len() == 0 || is_separator(a.last()) || is_separator(b[0]),
    ensures
        tokens_from(a + b, a.len() + i) == tokens_from(b, i),
    decreases b.len() - i,
{
    let s = a + b;
    if i < b.len() {
        assert(s[a.len() + i] == b[i]);
        if i > 0 {
            assert(s[a.len() + i - 1] == b[i - 1]);
        } else if a.len() > 0 {
            assert(s[a.len() + i - 1] == a.last());
        }
        assert(starts_word(s, a.len() + i) == starts_word(b, i));
        lemma_word_end_right(a, b, i);
        assert(s.subrange(a.len() + i, a.len() + word_end(b, i)) =~= b.subrange(
            i,
            word_end(b, i),
        )) by {
            lemma_word_end(b, i);
        }
        lemma_tokens_from_right(a, b, i + 1);
    }
}

/// The tokens from an index in the first of two texts on are those of the
/// first from there on and then those of the second, where no token can
/// reach from the one into the other.
proof fn lemma_tokens_from_left(a: Seq<char>, b: Seq<char>, i: int)
    requires
        0 <= i <= a.len(),
        a.len() == 0 || b.len() == 0 || is_separator(a.last()) || is_separator(b[0]),
    ensures
        tokens_from(a + b, i) == tokens_from(a, i) + tokens_from(b, 0),
    decreases a.len() - i,
{
    let s = a + b;
    if i < a.len() {
        assert(s[i] == a[i]);
        if i > 0 {
            assert(s[i - 1] == a[i - 1]);
        }
        assert(starts_word(s, i) == starts_word(a, i));
        lemma_tokens_from_left(a, b, i + 1);
        if starts_word(a, i) {
            lemma_word_end_left(a, b, i);
            lemma_word_end(a, i);
            assert(s.subrange(i, word_end(a, i)) =~= a.subrange(i, word_end(a, i)));
            assert(tokens_from(s, i) =~= tokens_from(a, i) + tokens_from(b, 0));
        }
    } else {
        lemma_tokens_from_right(a, b, 0);
        assert(tokens_from(a, i) + tokens_from(b, 0) =~= tokens_from(b, 0));
    }
}

/// The tokens of two texts put together are the tokens of the first and
/// then those of the second, where the first ends with a separator or the
/// second begins with one, or one of them is empty.
pub proof fn lemma_tokens_of_concat(a: Seq<char>, b: Seq<char>)
    requires
        a.len() == 0 || b.len() == 0 || is_separator(a.last()) || is_separator(b[0]),
    ensures
        tokens_of(a + b) == tokens_of(a) + tokens_of(b),
{
    lemma_tokens_from_left(a, b, 0);
}

/// A word is its own and only token.
pub proof fn lemma_tokens_of_word(w: Seq<char>)
    requires
        is_word(w),
    ensures
        tokens_of(w) == seq![w],
{
    lemma_word_end(w, 0);
    assert(word_end(w, 0) == w.len()) by {
        if word_end(w, 0) < w.len() {
            assert(!is_separator(w[word_end(w, 0)]));
        }
    }
    assert(starts_word(w, 0));
    assert(w.subrange(0, w.len() as int) =~= w);
    lemma_no_start_inside(w, 0, w.len() as int);
    assert(tokens_from(w, w.len() as int) =~= Seq::<Seq<char>>::empty());
    assert(tokens_of(w) =~= seq![w]);
}

/// A text of separators alone has no token.
pub proof fn lemma_tokens_of_separator(c: char)
    requires
        is_separator(c),
    ensures
        tokens_of(seq![c]) == Seq::<Seq<char>>::empty(),
{
    let s = seq![c];
    assert(!starts_word(s, 0));
    assert(tokens_from(s, 1) =~= Seq::<Seq<char>>::empty());
}

/// Splits `msg` into its tokens.
pub fn tokenize(msg: &str) -> (r: Vec<String>)
    ensures
        r.deep_view() == tokens_of(msg@),
{
    let v = chars_of(msg);
    let n = v.len();
    let mut out: Vec<String> = Vec::new();
    let mut i: usize = 0;
    assert(out.deep_view() =~= Seq::<Seq<char>>::empty());
    while i < n
        invariant
            v@ == msg@,
            n == v.len(),
            i <= n,
            i == 0 || i == n || is_separator(v@[i - 1]) || is_separator(v@[i as int]),
            out.deep_view() + tokens_from(msg@, i as int) == tokens_of(msg@),
        decreases n - i,
    {
        if separator(v[i]) {
            i += 1;
        } else {
            let mut j: usize = i + 1;
            while j < n && !separator(v[j])
                invariant
                    v@ == msg@,
                    n == v.len(),
                    i < j <= n,
                    forall|k: int| i <= k < j ==> !is_separator(#[trigger] v@[k]),
                    word_end(v@, i as int) == word_end(v@, j as int),
                decreases n - j,
            {
                j += 1;
            }
            let word = msg.substring_char(i, j);
            let ghost before = out.deep_view();
            out.push(word.to_owned());
            proof {
                assert(starts_word(msg@, i as int));
                assert(word_end(msg@, j as int) == j);
                lemma_no_start_inside(msg@, i as int, j as int);
                assert(out.deep_view() =~= before.push(word@));
                assert(before.push(word@) + tokens_from(msg@, j as int) =~= before + tokens_from(
                    msg@,
                    i as int,
                ));
            }
            i = j;
        }
    }
    assert(out.deep_view() + tokens_from(msg@, i as int) =~= out.deep_view());
    out
}

} // verus!
