use walriust::category::Category;
use walriust::parser::ResultCommand;
use walriust::reply::{reply_text, unknown_reply};
use walriust::transaction::NewTransaction;

#[test]
fn unknown_input_gets_the_fallback() {
    assert_eq!(unknown_reply(), "Ehhh, what do you mean dude?");
}

#[test]
fn outcome_is_quoted_after_the_greeting() {
    let added = ResultCommand::AddTransaction(NewTransaction {
        amount: 1,
        category: Category::Food,
        note: None,
        shop_name: None,
    });
    assert_eq!(reply_text(&added, "Ok(1)"), "Dude, nice job! 'Ok(1)'");
    assert_eq!(reply_text(&ResultCommand::ListTransaction, "Ok([])"), "Your list! 'Ok([])'");
    assert_eq!(reply_text(&ResultCommand::SummaryCurrentMonth, ""), "Your summary! ''");
}

#[test]
fn help_does_not_depend_on_the_outcome() {
    let help = reply_text(&ResultCommand::Help, "anything");
    assert_eq!(help, reply_text(&ResultCommand::Help, ""));
    assert!(help.contains("Welcome to Walriust!"));
    assert!(help.contains("list [list all transactions]"));
    assert!(help.contains("current [summarize transactions in this month]"));
    assert!(help.contains("<category> <?shop_name> <price> <note>"));
    assert!(help.contains("- Miscellaneous,"));
    assert!(help.starts_with("\n                Welcome"));
    assert_eq!(help.lines().count(), 23);
}
