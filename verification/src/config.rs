//! The settings of the service and their defaults.

use vstd::prelude::*;

verus! {

/// What the service needs to know to start.
#[derive(Clone, Debug)]
pub struct Config {
    pub database_url: String,
    pub telegram_token: String,
}

/// The database that is used where none is named.
pub open spec fn default_database_url() -> Seq<char> {
    "postgres:///walriust"@
}

/// `value` where there is one, else `default`.
pub open spec fn value_or(value: Option<String>, default: Seq<char>) -> Seq<char> {
    match value {
        Some(v) => v@,
        None => default,
    }
}

/// The value of a setting: `value`, as the environment gave it, or
/// `default` where it gave none.
pub fn env_or_default(value: Option<String>, default: &str) -> (r: String)
    ensures
        r@ == value_or(value, default@),
{
    match value {
        Some(v) => v,
        None => default.to_owned(),
    }
}

/// The configuration that the two settings make, each as the environment
/// gave it. Without a database the default one is used, and without a token
/// the token is empty.
pub fn build_config(database_url: Option<String>, telegram_token: Option<String>) -> (r: Box<
    Config,
>)
    ensures
        r.database_url@ == value_or(database_url, default_database_url()),
        r.telegram_token@ == value_or(telegram_token, Seq::empty()),
{
    proof {
        reveal_strlit("");
        assert(""@ =~= Seq::<char>::empty());
    }
    Box::new(
        Config {
            database_url: env_or_default(database_url, "postgres:///walriust"),
            telegram_token: env_or_default(telegram_token, ""),
        },
    )
}

} // verus!
