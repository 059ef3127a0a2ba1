//! The message reader of a chat bot that keeps a record of what its
//! user spends.
//!
//! A message is split into tokens, the first token decides what the
//! message asks for, and a message that begins with a category is read as
//! a transaction: category, shop, amount and note. Every function here is
//! pure: it takes a text and values and gives values back.
//!
//! Amounts are whole numbers of minor units. Reading a token as a decimal
//! number is left to the caller, who hands the readings in beside the
//! message.

pub mod category;
pub mod config;
pub mod parser;
pub mod reply;
pub mod text;
pub mod tokenizer;
pub mod transaction;
