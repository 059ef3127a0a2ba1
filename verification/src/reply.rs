//! The texts that answer a message.

use vstd::prelude::*;
use crate::parser::{CommandView, ResultCommand};

verus! {

/// The answer to a message that asks for nothing.
pub open spec fn unknown_text() -> Seq<char> {
    "Ehhh, what do you mean dude?"@
}

/// The help text.
pub const HELP: &'static str = r#"
                Welcome to Walriust!
                
                Basic Usage:                    
                    list [list all transactions]
                    current [summarize transactions in this month]
                    help [show this message].
                   
                 Adding Transaction -
                    <category> <?shop_name> <price> <note>
                    
                    Example
                   
                    Food 425.0 for XYZ 
                    food Yayoi 422
                
                List of available category
                    - Food,
                    - Drink,
                    - Travel,
                    - Work,
                    - Miscellaneous,
                "#;

/// The characters of the help text.
pub open spec fn help_text() -> Seq<char> {
    HELP@
}

/// The answer to `command`, where `outcome` is what came of carrying it
/// out, written as text. The help text does not depend on the outcome.
pub open spec fn reply_for(command: CommandView, outcome: Seq<char>) -> Seq<char> {
    match command {
        CommandView::AddTransaction(_) => "Dude, nice job! '"@ + outcome + "'"@,
        CommandView::ListTransaction => "Your list! '"@ + outcome + "'"@,
        CommandView::SummaryCurrentMonth => "Your summary! '"@ + outcome + "'"@,
        CommandView::Help => help_text(),
    }
}

/// The answer to a message that asks for nothing.
pub fn unknown_reply() -> (r: String)
    ensures
        r@ == unknown_text(),
{
    "Ehhh, what do you mean dude?".to_owned()
}

/// `outcome` between quotes, after `opening`.
fn quoted(opening: &str, outcome: &str) -> (r: String)
    ensures
        r@ == opening@ + outcome@ + "'"@,
{
    let mut text = opening.to_owned();
    text.append(outcome);
    text.append("'");
    text
}

/// The answer to `command`, where `outcome` is what came of carrying it
/// out, written as text.
pub fn reply_text(command: &ResultCommand, outcome: &str) -> (r: String)
    ensures
        r@ == reply_for(command@, outcome@),
{
    match command {
        ResultCommand::AddTransaction(_) => quoted("Dude, nice job! '", outcome),
        ResultCommand::ListTransaction => quoted("Your list! '", outcome),
        ResultCommand::SummaryCurrentMonth => quoted("Your summary! '", outcome),
        ResultCommand::Help => HELP.to_owned(),
    }
}

} // verus!
