//! The categories of spending and the words that name them.

use vstd::prelude::*;
use crate::text::{
    chars_of, fold_case, folded, folds_to, is_blank, lemma_trim_end_blanks,
    lemma_trim_start_blanks, trim_bounds, trimmed,
};

verus! {

/// What a transaction was spent on.
#[derive(Debug, Clone, Copy, PartialEq, Eq, Structural)]
pub enum Category {
    Food,
    Drink,
    Travel,
    Work,
    Miscellaneous,
}

/// The category that the lowercase word `alias` stands for, if it is one of
/// the vocabulary. `drink` and `d` stand for `Food`.
pub open spec fn alias_category(alias: Seq<char>) -> Option<Category> {
    if alias == seq!['f', 'o', 'o', 'd'] || alias == seq!['f'] {
        Some(Category::Food)
    } else if alias == seq!['d', 'r', 'i', 'n', 'k'] || alias == seq!['d'] {
        Some(Category::Food)
    } else if alias == seq!['t', 'r', 'a', 'v', 'e', 'l'] {
        Some(Category::Travel)
    } else if alias == seq!['w', 'o', 'r', 'k'] {
        Some(Category::Work)
    } else if alias == seq!['m', 'i', 's', 'c'] {
        Some(Category::Miscellaneous)
    } else {
        None
    }
}

/// The word under which a category is stored.
pub open spec fn canonical_name(category: Category) -> Seq<char> {
    match category {
        Category::Food => seq!['f', 'o', 'o', 'd'],
        Category::Drink => seq!['d', 'r', 'i', 'n', 'k'],
        Category::Travel => seq!['t', 'r', 'a', 'v', 'e', 'l'],
        Category::Work => seq!['w', 'o', 'r', 'k'],
        Category::Miscellaneous => seq!['m', 'i', 's', 'c'],
    }
}

/// The category that `token` names: blanks at its ends and the case of its
/// letters do not count.
pub open spec fn lookup(token: Seq<char>) -> Option<Category> {
    alias_category(folded(trimmed(token)))
}

/// Every word of the vocabulary, written in capitals, small letters or both
/// and with blanks before and after it, names the category that the word
/// stands for.
pub proof fn lemma_alias_in_any_case(
    alias: Seq<char>,
    before: Seq<char>,
    word: Seq<char>,
    after: Seq<char>,
)
    requires
        alias_category(alias) is Some,
        folded(word) == alias,
        forall|i: int| 0 <= i < before.len() ==> is_blank(#[trigger] before[i]),
        forall|i: int| 0 <= i < after.len() ==> is_blank(#[trigger] after[i]),
    ensures
        lookup(before + word + after) == alias_category(alias),
{
    assert(word.len() == alias.len());
    assert(word.len() > 0);
    assert(forall|i: int| 0 <= i < alias.len() ==> 'a' <= #[trigger] alias[i] <= 'z');
    assert forall|i: int| 0 <= i < word.len() implies !is_blank(#[trigger] word[i]) by {
        assert(fold_case(word[i]) == alias[i]);
    }
    assert(word.last() == word[word.len() - 1]);
    lemma_trim_start_blanks(before, word + after);
    assert(before + word + after =~= before + (word + after));
    lemma_trim_end_blanks(word, after);
    assert(trimmed(before + word + after) == word);
}

/// The word under which a category is stored names that category again,
/// but for `Drink`, whose word names `Food`.
pub proof fn lemma_canonical_name_is_alias(category: Category)
    ensures
        lookup(canonical_name(category)) == Some(
            if category is Drink {
                Category::Food
            } else {
                category
            },
        ),
{
    let name = canonical_name(category);
    assert(folded(name) =~= name);
    lemma_alias_in_any_case(name, Seq::empty(), name, Seq::empty());
    assert(Seq::<char>::empty() + name + Seq::<char>::empty() =~= name);
}

/// Tells whether `v[lo..hi]`, put in lowercase, is `word`.
fn folds_to_word(v: &Vec<char>, lo: usize, hi: usize, word: &str) -> (r: bool)
    requires
        lo <= hi <= v.len(),
    ensures
        r == (folded(v@.subrange(lo as int, hi as int)) == word@),
{
    let n = word.unicode_len();
    if hi - lo != n {
        return false;
    }
    let ghost part = v@.subrange(lo as int, hi as int);
    let mut i: usize = 0;
    while i < n
        invariant
            lo <= hi <= v.len(),
            hi - lo == n,
            n == word@.len(),
            i <= n,
            part == v@.subrange(lo as int, hi as int),
            forall|k: int| 0 <= k < i ==> folded(part)[k] == word@[k],
        decreases n - i,
    {
        if !folds_to(v[lo + i], word.get_char(i)) {
            assert(folded(part)[i as int] != word@[i as int]);
            return false;
        }
        i += 1;
    }
    assert(folded(part) =~= word@);
    true
}

impl Category {
    /// The categories that a user can choose from.
    pub fn all() -> (r: Vec<Category>)
        ensures
            r@ == seq![Category::Food, Category::Travel, Category::Work, Category::Miscellaneous],
    {
        let mut r: Vec<Category> = Vec::new();
        r.push(Category::Food);
        r.push(Category::Travel);
        r.push(Category::Work);
        r.push(Category::Miscellaneous);
        assert(r@ =~= seq![
            Category::Food,
            Category::Travel,
            Category::Work,
            Category::Miscellaneous,
        ]);
        r
    }

    /// The word under which the category is stored.
    pub fn name(&self) -> (r: &'static str)
        ensures
            r@ == canonical_name(*self),
    {
        proof {
            reveal_strlit("food");
            reveal_strlit("drink");
            reveal_strlit("travel");
            reveal_strlit("work");
            reveal_strlit("misc");
            assert("food"@ =~= seq!['f', 'o', 'o', 'd']);
            assert("drink"@ =~= seq!['d', 'r', 'i', 'n', 'k']);
            assert("travel"@ =~= seq!['t', 'r', 'a', 'v', 'e', 'l']);
            assert("work"@ =~= seq!['w', 'o', 'r', 'k']);
            assert("misc"@ =~= seq!['m', 'i', 's', 'c']);
        }
        match self {
            Category::Food => "food",
            Category::Drink => "drink",
            Category::Travel => "travel",
            Category::Work => "work",
            Category::Miscellaneous => "misc",
        }
    }

    /// Looks `token` up in the vocabulary.
    pub fn from_string(token: &str) -> (r: Option<Category>)
        ensures
            r == lookup(token@),
    {
        let v = chars_of(token);
        let (lo, hi) = trim_bounds(&v);
        proof {
            reveal_strlit("food");
            reveal_strlit("f");
            reveal_strlit("drink");
            reveal_strlit("d");
            reveal_strlit("travel");
            reveal_strlit("work");
            reveal_strlit("misc");
            assert("food"@ =~= seq!['f', 'o', 'o', 'd']);
            assert("f"@ =~= seq!['f']);
            assert("drink"@ =~= seq!['d', 'r', 'i', 'n', 'k']);
            assert("d"@ =~= seq!['d']);
            assert("travel"@ =~= seq!['t', 'r', 'a', 'v', 'e', 'l']);
            assert("work"@ =~= seq!['w', 'o', 'r', 'k']);
            assert("misc"@ =~= seq!['m', 'i', 's', 'c']);
        }
        if folds_to_word(&v, lo, hi, "food") || folds_to_word(&v, lo, hi, "f") {
            Some(Category::Food)
        } else if folds_to_word(&v, lo, hi, "drink") || folds_to_word(&v, lo, hi, "d") {
            Some(Category::Food)
        } else if folds_to_word(&v, lo, hi, "travel") {
            Some(Category::Travel)
        } else if folds_to_word(&v, lo, hi, "work") {
            Some(Category::Work)
        } else if folds_to_word(&v, lo, hi, "misc") {
            Some(Category::Miscellaneous)
        } else {
            None
        }
    }

    /// Tells whether `token` names a category.
    pub fn is_category(token: &str) -> (r: bool)
        ensures
            r == lookup(token@).is_some(),
    {
        Self::from_string(token).is_some()
    }
}

} // verus!
