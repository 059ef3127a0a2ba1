//! Reading a message: which command it is, and the fields of a
//! transaction.

use vstd::prelude::*;
use crate::category::{lookup, Category};
use crate::text::{chars_of, is_separator};
use crate::tokenizer::{
    is_word, lemma_tokens_are_words, lemma_tokens_of_concat, lemma_tokens_of_separator,
    lemma_tokens_of_word, tokenize, tokens_of,
};
use crate::transaction::{
    fields_normalized, is_normalized, text_of, NewTransaction, TransactionView,
};

verus! {

/// Reads messages. It holds nothing: every reading starts afresh.
pub struct Parser {}

/// Where the reading of a transaction stands.
enum ParseState {
    Start,
    FindShopOrAmount,
    FindNote,
    End,
}

/// What a message asks for.
#[derive(Debug, PartialEq, Eq)]
pub enum ResultCommand {
    AddTransaction(NewTransaction),
    ListTransaction,
    SummaryCurrentMonth,
    Help,
}

/// The mathematical value of a `ResultCommand`.
pub ghost enum CommandView {
    AddTransaction(TransactionView),
    ListTransaction,
    SummaryCurrentMonth,
    Help,
}

impl View for ResultCommand {
    type V = CommandView;

    open spec fn view(&self) -> CommandView {
        match self {
            ResultCommand::AddTransaction(t) => CommandView::AddTransaction(t@),
            ResultCommand::ListTransaction => CommandView::ListTransaction,
            ResultCommand::SummaryCurrentMonth => CommandView::SummaryCurrentMonth,
            ResultCommand::Help => CommandView::Help,
        }
    }
}

/// `words` with one space between each two of them.
pub open spec fn joined(words: Seq<Seq<char>>) -> Seq<char>
    decreases words.len(),
{
    if words.len() == 0 {
        Seq::empty()
    } else if words.len() == 1 {
        words[0]
    } else {
        joined(words.drop_last()) + seq![' '] + words.last()
    }
}

/// The amount that token `i` of a message with `n` tokens reads as, in
/// minor units, where `amounts[i]` gives it; a token without an entry in
/// `amounts` is no number.
pub open spec fn reading(amounts: Seq<Option<i64>>, i: int, n: int) -> Option<i64> {
    if 0 <= i < n && i < amounts.len() {
        amounts[i]
    } else {
        None
    }
}

/// The first index from `i` on, below `n`, of a token that reads as an
/// amount; `n` if there is none.
pub open spec fn first_amount(amounts: Seq<Option<i64>>, i: int, n: int) -> int
    decreases n - i,
{
    if i >= n {
        n
    } else if reading(amounts, i, n) is Some {
        i
    } else {
        first_amount(amounts, i + 1, n)
    }
}

/// The note that the tokens from `from` on make: all of them, joined; none
/// if no token is left.
pub open spec fn note_from(tokens: Seq<Seq<char>>, from: int) -> Option<Seq<char>> {
    if 0 <= from < tokens.len() {
        Some(joined(tokens.skip(from)))
    } else {
        None
    }
}

/// The transaction that `tokens` describe, where `amounts` tells which of
/// them read as an amount.
///
/// The first token names the category. If the second token is an amount and
/// the third is none, the second is the amount and there is no shop.
/// Otherwise the amount is the first token from the third on that reads as
/// one, and the tokens between the category and the amount are the shop's
/// name. What follows the amount is the note. Without a category or an
/// amount there is no transaction.
pub open spec fn parse_fields(tokens: Seq<Seq<char>>, amounts: Seq<Option<i64>>) -> Option<
    TransactionView,
> {
    let n = tokens.len() as int;
    if n == 0 {
        None
    } else {
        match lookup(tokens[0]) {
            None => None,
            Some(category) => {
                if reading(amounts, 1, n) is Some && reading(amounts, 2, n) is None {
                    Some(
                        TransactionView {
                            amount: reading(amounts, 1, n)->0,
                            category,
                            note: note_from(tokens, 2),
                            shop_name: None,
                        },
                    )
                } else {
                    let j = first_amount(amounts, 2, n);
                    if j < n {
                        Some(
                            TransactionView {
                                amount: reading(amounts, j, n)->0,
                                category,
                                note: note_from(tokens, j + 1),
                                shop_name: Some(joined(tokens.subrange(1, j))),
                            },
                        )
                    } else {
                        None
                    }
                }
            },
        }
    }
}

/// `shop` with `word` added after a space; `word` alone where there is no
/// `shop` yet.
pub open spec fn extended(shop: Option<Seq<char>>, word: Seq<char>) -> Seq<char> {
    match shop {
        Some(s) => s + seq![' '] + word,
        None => word,
    }
}

/// The search for the shop and the amount, token by token, from token
/// `pos` on, with `shop` gathered so far.
///
/// Where the token after this one reads as an amount, this token ends the
/// shop's name and the next is the amount. Else, where this token reads as
/// an amount, it is the amount, and what was gathered is dropped. Else this
/// token is added to the shop's name and the search goes on. In both cases
/// the note begins after the amount. When the tokens run out, there is no
/// transaction.
pub open spec fn scan(
    tokens: Seq<Seq<char>>,
    amounts: Seq<Option<i64>>,
    category: Category,
    pos: int,
    shop: Option<Seq<char>>,
) -> Option<TransactionView>
    decreases tokens.len() - pos,
{
    let n = tokens.len() as int;
    if pos < 0 || pos >= n {
        None
    } else if reading(amounts, pos + 1, n) is Some {
        Some(
            TransactionView {
                amount: reading(amounts, pos + 1, n)->0,
                category,
                note: note_from(tokens, pos + 2),
                shop_name: Some(extended(shop, tokens[pos])),
            },
        )
    } else if reading(amounts, pos, n) is Some {
        Some(
            TransactionView {
                amount: reading(amounts, pos, n)->0,
                category,
                note: note_from(tokens, pos + 1),
                shop_name: None,
            },
        )
    } else {
        scan(tokens, amounts, category, pos + 1, Some(extended(shop, tokens[pos])))
    }
}

/// The reading of `tokens` step by step: the first token must name a
/// category, and the search for the shop and the amount starts at the
/// second with nothing gathered.
pub open spec fn scan_fields(tokens: Seq<Seq<char>>, amounts: Seq<Option<i64>>) -> Option<
    TransactionView,
> {
    if tokens.len() == 0 {
        None
    } else {
        match lookup(tokens[0]) {
            None => None,
            Some(category) => scan(tokens, amounts, category, 1, None),
        }
    }
}

/// What `tokens` ask for, where `amounts` tells which of them read as an
/// amount.
///
/// The first token decides, as it stands: a name of a category asks for a
/// transaction, which the whole message must then describe; a token that
/// begins with `list`, `help` or `current` asks for the list, the help text
/// or the summary of the month. Anything else asks for nothing.
pub open spec fn classify(tokens: Seq<Seq<char>>, amounts: Seq<Option<i64>>) -> Option<
    CommandView,
> {
    if tokens.len() == 0 {
        None
    } else if lookup(tokens[0]) is Some {
        match parse_fields(tokens, amounts) {
            Some(t) => Some(CommandView::AddTransaction(t)),
            None => None,
        }
    } else if seq!['l', 'i', 's', 't'].is_prefix_of(tokens[0]) {
        Some(CommandView::ListTransaction)
    } else if seq!['h', 'e', 'l', 'p'].is_prefix_of(tokens[0]) {
        Some(CommandView::Help)
    } else if seq!['c', 'u', 'r', 'r', 'e', 'n', 't'].is_prefix_of(tokens[0]) {
        Some(CommandView::SummaryCurrentMonth)
    } else {
        None
    }
}

/// Words joined by single spaces make a normalized text.
pub proof fn lemma_joined_normalized(words: Seq<Seq<char>>)
    requires
        words.len() > 0,
        forall|k: int| 0 <= k < words.len() ==> is_word(#[trigger] words[k]),
    ensures
        is_normalized(joined(words)),
    decreases words.len(),
{
    if words.len() > 1 {
        let head = joined(words.drop_last());
        let w = words.last();
        let s = joined(words);
        assert forall|k: int| 0 <= k < words.drop_last().len() implies is_word(
            #[trigger] words.drop_last()[k],
        ) by {
            assert(words.drop_last()[k] == words[k]);
        }
        lemma_joined_normalized(words.drop_last());
        assert(is_word(w));
        assert(s == head + seq![' '] + w);
        assert(s.len() == head.len() + 1 + w.len());
        assert(s[0] == head[0]);
        assert(s.last() == w.last());
        assert forall|i: int| 0 <= i < s.len() - 1 && is_separator(#[trigger] s[i]) implies s[i]
            == ' ' && !is_separator(s[i + 1]) by {
            if i < head.len() - 1 {
                assert(s[i] == head[i]);
                assert(s[i + 1] == head[i + 1]);
            } else if i == head.len() - 1 {
                assert(s[i] == head.last());
            } else if i == head.len() {
                assert(s[i + 1] == w[0]);
            } else {
                assert(s[i] == w[i - head.len() - 1]);
            }
        }
    } else {
        assert(is_word(words[0]));
    }
}

/// Words joined by single spaces are split into the same words again.
pub proof fn lemma_tokens_of_joined(words: Seq<Seq<char>>)
    requires
        forall|k: int| 0 <= k < words.len() ==> is_word(#[trigger] words[k]),
    ensures
        tokens_of(joined(words)) == words,
    decreases words.len(),
{
    if words.len() == 0 {
        assert(tokens_of(joined(words)) =~= words);
    } else if words.len() == 1 {
        lemma_tokens_of_word(words[0]);
        assert(seq![words[0]] =~= words);
    } else {
        let front = words.drop_last();
        let head = joined(front);
        let w = words.last();
        assert forall|k: int| 0 <= k < front.len() implies is_word(#[trigger] front[k]) by {
            assert(front[k] == words[k]);
        }
        lemma_tokens_of_joined(front);
        lemma_tokens_of_separator(' ');
        lemma_tokens_of_word(w);
        assert(seq![' '][0] == ' ');
        lemma_tokens_of_concat(head, seq![' ']);
        assert((head + seq![' ']).last() == ' ');
        lemma_tokens_of_concat(head + seq![' '], w);
        assert(tokens_of(joined(words)) =~= front + seq![w]);
        assert(front + seq![w] =~= words);
    }
}

/// Of a transaction that words describe: its category is the one that the
/// first word names, and its shop's name and its note, where there is one,
/// are normalized.
pub proof fn lemma_parse_fields_well_formed(tokens: Seq<Seq<char>>, amounts: Seq<Option<i64>>)
    requires
        forall|k: int| 0 <= k < tokens.len() ==> is_word(#[trigger] tokens[k]),
    ensures
        parse_fields(tokens, amounts) matches Some(t) ==> {
            &&& tokens.len() >= 2
            &&& lookup(tokens[0]) == Some(t.category)
            &&& fields_normalized(t)
        },
{
    let n = tokens.len() as int;
    if let Some(t) = parse_fields(tokens, amounts) {
        let j = if reading(amounts, 1, n) is Some && reading(amounts, 2, n) is None {
            1
        } else {
            first_amount(amounts, 2, n)
        };
        lemma_first_amount(amounts, 2, n);
        if j >= 2 {
            let shop = tokens.subrange(1, j);
            assert forall|k: int| 0 <= k < shop.len() implies is_word(#[trigger] shop[k]) by {
                assert(shop[k] == tokens[k + 1]);
            }
            lemma_joined_normalized(shop);
        }
        if j + 1 < n {
            let rest = tokens.skip(j + 1);
            assert forall|k: int| 0 <= k < rest.len() implies is_word(#[trigger] rest[k]) by {
                assert(rest[k] == tokens[k + j + 1]);
            }
            lemma_joined_normalized(rest);
        }
    }
}

/// `first_amount(amounts, i, n)` is the first index from `i` on, below `n`,
/// of a token that reads as an amount, or `n`.
pub proof fn lemma_first_amount(amounts: Seq<Option<i64>>, i: int, n: int)
    requires
        0 <= i,
    ensures
        i <= n ==> i <= first_amount(amounts, i, n) <= n,
        first_amount(amounts, i, n) < n ==> reading(amounts, first_amount(amounts, i, n), n)
            is Some,
        forall|k: int| i <= k < first_amount(amounts, i, n) ==> reading(amounts, k, n) is None,
    decreases n - i,
{
    if i < n && reading(amounts, i, n) is None {
        lemma_first_amount(amounts, i + 1, n);
    }
}

/// The search from token `pos` on finds what `parse_fields` says, where
/// the tokens before `pos` were gathered as the search gathers them: none
/// of them, nor token `pos`, reads as an amount, and `shop` holds them
/// joined.
proof fn lemma_scan(
    tokens: Seq<Seq<char>>,
    amounts: Seq<Option<i64>>,
    category: Category,
    pos: int,
    shop: Option<Seq<char>>,
)
    requires
        1 <= pos <= tokens.len(),
        lookup(tokens[0]) == Some(category),
        pos == 1 ==> shop is None,
        pos >= 2 ==> {
            &&& reading(amounts, 1, tokens.len() as int) is None
            &&& reading(amounts, pos, tokens.len() as int) is None
            &&& first_amount(amounts, 2, tokens.len() as int) == first_amount(
                amounts,
                pos,
                tokens.len() as int,
            )
            &&& shop == Some(joined(tokens.subrange(1, pos)))
        },
    ensures
        scan(tokens, amounts, category, pos, shop) == parse_fields(tokens, amounts),
    decreases tokens.len() - pos,
{
    let n = tokens.len() as int;
    if pos < n {
        let taken = tokens.subrange(1, pos + 1);
        assert(taken.drop_last() =~= tokens.subrange(1, pos));
        assert(taken.last() == tokens[pos]);
        assert(joined(taken) == extended(shop, tokens[pos]));
        if reading(amounts, pos + 1, n) is Some {
            assert(first_amount(amounts, pos + 1, n) == pos + 1);
            if pos >= 2 {
                assert(first_amount(amounts, pos, n) == pos + 1);
            }
        } else if reading(amounts, pos, n) is Some {
        } else {
            if pos >= 2 {
                assert(first_amount(amounts, pos, n) == first_amount(amounts, pos + 1, n));
            }
            lemma_scan(tokens, amounts, category, pos + 1, Some(extended(shop, tokens[pos])));
        }
    } else {
        lemma_first_amount(amounts, 2, n);
        if pos >= 2 {
            assert(first_amount(amounts, pos, n) == n);
        }
    }
}

/// Reading the tokens step by step gives the transaction that
/// `parse_fields` describes. So what the search drops, when a token reads
/// as an amount and the one after it does not, is never more than nothing:
/// that token is then the second of the message.
pub proof fn lemma_scan_fields_is_parse_fields(tokens: Seq<Seq<char>>, amounts: Seq<Option<i64>>)
    ensures
        scan_fields(tokens, amounts) == parse_fields(tokens, amounts),
{
    if tokens.len() > 0 {
        if let Some(category) = lookup(tokens[0]) {
            lemma_scan(tokens, amounts, category, 1, None);
        }
    }
}

/// Reading one message twice gives the same transaction, or none both
/// times.
pub proof fn lemma_parse_deterministic(
    msg: Seq<char>,
    amounts: Seq<Option<i64>>,
    first: Option<NewTransaction>,
    second: Option<NewTransaction>,
)
    requires
        parsed_view(first) == parse_fields(tokens_of(msg), amounts),
        parsed_view(second) == parse_fields(tokens_of(msg), amounts),
    ensures
        parsed_view(first) == parsed_view(second),
        first is Some <==> second is Some,
{
}

/// A message whose first token names a category asks for a transaction of
/// that category, or for nothing.
pub proof fn lemma_classify_category(
    tokens: Seq<Seq<char>>,
    amounts: Seq<Option<i64>>,
    category: Category,
)
    requires
        tokens.len() > 0,
        lookup(tokens[0]) == Some(category),
    ensures
        classify(tokens, amounts) matches Some(c) ==> c matches CommandView::AddTransaction(t)
            && t.category == category,
        classify(tokens, amounts) is None <==> parse_fields(tokens, amounts) is None,
{
}

/// The value of an optional command.
pub open spec fn command_view(r: Option<ResultCommand>) -> Option<CommandView> {
    match r {
        Some(c) => Some(c@),
        None => None,
    }
}

/// The value of an optional transaction.
pub open spec fn parsed_view(r: Option<NewTransaction>) -> Option<TransactionView> {
    match r {
        Some(t) => Some(t@),
        None => None,
    }
}

/// How far a state is from the end.
spec fn rank(state: ParseState) -> nat {
    match state {
        ParseState::Start => 3,
        ParseState::FindShopOrAmount => 2,
        ParseState::FindNote => 1,
        ParseState::End => 0,
    }
}

/// The amount that token `i` of `n` reads as.
fn amount_at(amounts: &Vec<Option<i64>>, i: usize, n: usize) -> (r: Option<i64>)
    ensures
        r == reading(amounts@, i as int, n as int),
{
    if i < n && i < amounts.len() {
        amounts[i]
    } else {
        None
    }
}

/// `shop` with `word` added after a space; `word` alone if there is no
/// `shop` yet.
fn append_word(shop: Option<String>, word: &str) -> (r: String)
    ensures
        r@ == extended(text_of(shop), word@),
{
    match shop {
        Some(s) => {
            proof {
                reveal_strlit(" ");
                assert(" "@ =~= seq![' ']);
            }
            let mut builder = s;
            builder.append(" ");
            builder.append(word);
            builder
        },
        None => {
            let mut builder = String::new();
            builder.append(word);
            assert(builder@ =~= word@);
            builder
        },
    }
}

/// The tokens from `from` on, joined by single spaces.
fn join_from(tokens: &Vec<String>, from: usize) -> (r: String)
    requires
        from < tokens.len(),
    ensures
        r@ == joined(tokens.deep_view().skip(from as int)),
{
    let ghost words = tokens.deep_view();
    let mut builder = append_word(None, tokens[from].as_str());
    let mut k: usize = from + 1;
    assert(words.subrange(from as int, k as int) =~= seq![words[from as int]]);
    while k < tokens.len()
        invariant
            from < k <= tokens.len(),
            words == tokens.deep_view(),
            builder@ == joined(words.subrange(from as int, k as int)),
        decreases tokens.len() - k,
    {
        builder = append_word(Some(builder), tokens[k].as_str());
        proof {
            let next = words.subrange(from as int, k as int + 1);
            assert(next.drop_last() =~= words.subrange(from as int, k as int));
            assert(next.last() == words[k as int]);
        }
        k += 1;
    }
    assert(words.subrange(from as int, k as int) =~= words.skip(from as int));
    builder
}

/// Tells whether `token` begins with `prefix`.
fn starts_with(token: &str, prefix: &str) -> (r: bool)
    ensures
        r == prefix@.is_prefix_of(token@),
{
    let v = chars_of(token);
    let n = prefix.unicode_len();
    if v.len() < n {
        return false;
    }
    let mut i: usize = 0;
    while i < n
        invariant
            v@ == token@,
            n == prefix@.len(),
            n <= v.len(),
            i <= n,
            forall|k: int| 0 <= k < i ==> v@[k] == prefix@[k],
        decreases n - i,
    {
        if v[i] != prefix.get_char(i) {
            assert(token@.subrange(0, n as int)[i as int] != prefix@[i as int]);
            return false;
        }
        i += 1;
    }
    assert(prefix@ =~= token@.subrange(0, n as int));
    true
}

impl Parser {
    /// Reads `msg` as a command. `amounts[i]` is the amount that token `i`
    /// of `msg` reads as, or `None` where that token is no number.
    pub fn parse_message(&self, msg: &str, amounts: &Vec<Option<i64>>) -> (r: Option<
        ResultCommand,
    >)
        ensures
            command_view(r) == classify(tokens_of(msg@), amounts@),
            r matches Some(ResultCommand::AddTransaction(t)) ==> t.well_formed(),
    {
        let tokens = tokenize(msg);
        if tokens.len() == 0 {
            return None;
        }
        let token = tokens[0].as_str();
        assert(token@ == tokens.deep_view()[0]);
        proof {
            reveal_strlit("list");
            reveal_strlit("help");
            reveal_strlit("current");
            assert("list"@ =~= seq!['l', 'i', 's', 't']);
            assert("help"@ =~= seq!['h', 'e', 'l', 'p']);
            assert("current"@ =~= seq!['c', 'u', 'r', 'r', 'e', 'n', 't']);
        }
        if Category::from_string(token).is_some() {
            match self.parse_new_transaction(msg, amounts) {
                Some(t) => Some(ResultCommand::AddTransaction(t)),
                None => None,
            }
        } else if starts_with(token, "list") {
            Some(ResultCommand::ListTransaction)
        } else if starts_with(token, "help") {
            Some(ResultCommand::Help)
        } else if starts_with(token, "current") {
            Some(ResultCommand::SummaryCurrentMonth)
        } else {
            None
        }
    }

    /// Reads `msg` as a transaction: a category, then the shop's name if
    /// there is one, then the amount, then a note if there is one.
    /// `amounts[i]` is the amount that token `i` of `msg` reads as, or
    /// `None` where that token is no number.
    pub fn parse_new_transaction(&self, msg: &str, amounts: &Vec<Option<i64>>) -> (r: Option<
        NewTransaction,
    >)
        ensures
            parsed_view(r) == parse_fields(tokens_of(msg@), amounts@),
            r matches Some(t) ==> t.well_formed(),
    {
        let tokens = tokenize(msg);
        let n = tokens.len();
        let ghost words = tokens.deep_view();
        let ghost goal = parse_fields(words, amounts@);
        proof {
            lemma_tokens_are_words(msg@, 0);
            lemma_parse_fields_well_formed(words, amounts@);
        }
        let mut state = ParseState::Start;
        let mut category = Category::Food;
        let mut amount: i64 = 0;
        let mut shop_name: Option<String> = None;
        let mut note: Option<String> = None;
        let mut pos: usize = 0;
        loop
            invariant
                words == tokens.deep_view(),
                words == tokens_of(msg@),
                n == tokens.len(),
                goal == parse_fields(words, amounts@),
                pos <= n,
                state is Start ==> pos == 0 && shop_name is None,
                !(state is End) ==> note is None,
                state is FindShopOrAmount ==> {
                    &&& pos >= 1
                    &&& lookup(words[0]) == Some(category)
                    &&& pos == 1 ==> shop_name is None
                    &&& pos >= 2 ==> {
                        &&& reading(amounts@, 1, n as int) is None
                        &&& reading(amounts@, pos as int, n as int) is None
                        &&& first_amount(amounts@, 2, n as int) == first_amount(
                            amounts@,
                            pos as int,
                            n as int,
                        )
                        &&& text_of(shop_name) == Some(joined(words.subrange(1, pos as int)))
                    }
                },
                state is FindNote ==> {
                    &&& goal == Some(
                        TransactionView {
                            amount,
                            category,
                            note: note_from(words, pos as int),
                            shop_name: text_of(shop_name),
                        },
                    )
                },
                state is End ==> goal == Some(
                    TransactionView {
                        amount,
                        category,
                        note: text_of(note),
                        shop_name: text_of(shop_name),
                    },
                ),
            ensures
                state is End,
            decreases rank(state), n - pos,
        {
            match state {
                ParseState::Start => {
                    if pos >= n {
                        return None;
                    }
                    assert(tokens[pos as int]@ == words[pos as int]);
                    match Category::from_string(tokens[pos].as_str()) {
                        Some(c) => {
                            category = c;
                        },
                        None => {
                            return None;
                        },
                    }
                    pos += 1;
                    state = ParseState::FindShopOrAmount;
                },
                ParseState::FindShopOrAmount => {
                    if pos >= n {
                        return None;
                    }
                    let ahead = amount_at(amounts, pos + 1, n);
                    let here = amount_at(amounts, pos, n);
                    if let Some(cents) = ahead {
                        proof {
                            let taken = words.subrange(1, pos as int + 1);
                            assert(taken.drop_last() =~= words.subrange(1, pos as int));
                            assert(taken.last() == words[pos as int]);
                            assert(tokens[pos as int]@ == words[pos as int]);
                            assert(first_amount(amounts@, pos as int + 1, n as int) == pos + 1);
                            if pos >= 2 {
                                assert(first_amount(amounts@, pos as int, n as int) == pos + 1);
                            }
                        }
                        let so_far = shop_name;
                        shop_name = Some(append_word(so_far, tokens[pos].as_str()));
                        amount = cents;
                        pos += 2;
                        state = ParseState::FindNote;
                    } else if let Some(cents) = here {
                        shop_name = None;
                        amount = cents;
                        pos += 1;
                        state = ParseState::FindNote;
                    } else {
                        proof {
                            let taken = words.subrange(1, pos as int + 1);
                            assert(taken.drop_last() =~= words.subrange(1, pos as int));
                            assert(taken.last() == words[pos as int]);
                            assert(tokens[pos as int]@ == words[pos as int]);
                            if pos >= 2 {
                                assert(first_amount(amounts@, pos as int, n as int)
                                    == first_amount(amounts@, pos as int + 1, n as int));
                            }
                        }
                        let so_far = shop_name;
                        shop_name = Some(append_word(so_far, tokens[pos].as_str()));
                        pos += 1;
                    }
                },
                ParseState::FindNote => {
                    if pos < n {
                        note = Some(join_from(&tokens, pos));
                    }
                    state = ParseState::End;
                },
                ParseState::End => {
                    break ;
                },
            }
        }
        Some(NewTransaction { amount, category, note, shop_name })
    }
}

} // verus!
