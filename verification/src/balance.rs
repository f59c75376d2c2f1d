//! The balance of the account: asking for it, reading the reply, and how long it is good.

use vstd::prelude::*;

use crate::credentials;
use crate::json;
use crate::json::Json;
use crate::json::JsonView;
use crate::outside_text;
use crate::text;

verus! {

/// The balance of the account.
pub struct BalanceInfo {
    pub total_balance: String,
    pub currency: String,
}

/// The arguments of curl that ask for the balance with the key that the credentials give.
pub open spec fn balance_args_view(cred: Seq<char>) -> Option<Seq<Seq<char>>> {
    match credentials::yaml_value(cred, "DEEPSEEK_API_KEY"@) {
        Some(key) => Some(
            seq![
                "-sS"@,
                "-m"@,
                "10"@,
                "-H"@,
                "Authorization: Bearer "@ + key,
                "https://api.deepseek.com/user/balance"@,
            ],
        ),
        None => None,
    }
}

/// The arguments of curl that ask for the balance; nothing where the credentials give no
/// key.
pub fn balance_args(cred: &str) -> (r: Option<Vec<String>>)
    ensures
        match r {
            Some(v) => balance_args_view(cred@) == Some(v@.map_values(|s: String| s@)),
            None => balance_args_view(cred@) is None,
        },
{
    match credentials::extract_yaml_value(cred, "DEEPSEEK_API_KEY") {
        Some(key) => {
            let mut out: Vec<String> = Vec::new();
            out.push("-sS".to_owned());
            out.push("-m".to_owned());
            out.push("10".to_owned());
            out.push("-H".to_owned());
            out.push(text::joined_pair("Authorization: Bearer ", key.as_str()));
            out.push("https://api.deepseek.com/user/balance".to_owned());
            assert(out@.map_values(|s: String| s@) == balance_args_view(cred@)->0);
            Some(out)
        },
        None => None,
    }
}

/// The balance in a reply: its total and its currency, which is USD where none is given.
pub open spec fn balance_of(v: JsonView) -> Option<(Seq<char>, Seq<char>)> {
    let first = json::first_of(json::field(v, "balance_infos"@));
    match json::str_of(json::field_of(first, "total_balance"@)) {
        Some(total) => Some(
            (
                total,
                match json::str_of(json::field_of(first, "currency"@)) {
                    Some(c) => c,
                    None => "USD"@,
                },
            ),
        ),
        None => None,
    }
}

pub open spec fn balance_view(b: Option<BalanceInfo>) -> Option<(Seq<char>, Seq<char>)> {
    match b {
        Some(x) => Some((x.total_balance@, x.currency@)),
        None => None,
    }
}

/// The balance in a reply.
pub fn balance_in(v: &Json) -> (r: Option<BalanceInfo>)
    ensures
        balance_view(r) == balance_of(v@),
{
    let first = json::first(json::get(Some(v), "balance_infos"));
    match json::as_str(json::get(first, "total_balance")) {
        Some(total) => {
            let currency = match json::as_str(json::get(first, "currency")) {
                Some(c) => c.to_owned(),
                None => "USD".to_owned(),
            };
            Some(BalanceInfo { total_balance: total.to_owned(), currency })
        },
        None => None,
    }
}

/// The balance in what curl wrote; nothing where that is no JSON or gives none.
pub fn fetch_balance(stdout: &Vec<u8>) -> (r: Option<BalanceInfo>)
    ensures
        balance_view(r) == (match json::json_text(outside_text::lossy(stdout@)) {
            Some(v) => balance_of(v),
            None => None,
        }),
{
    let body = outside_text::lossy_text(stdout);
    match json::parse(body.as_str()) {
        Some(v) => balance_in(&v),
        None => None,
    }
}

/// How many seconds a balance is good.
pub const BALANCE_TTL_SECS: u64 = 300;

/// Whether a balance that was asked for so many seconds ago is still good.
pub fn balance_is_fresh(age_secs: Option<u64>) -> (r: bool)
    ensures
        r == (age_secs matches Some(n) && n < BALANCE_TTL_SECS),
{
    match age_secs {
        Some(n) => n < BALANCE_TTL_SECS,
        None => false,
    }
}

/// The rates by which the cost of a model is estimated.
#[derive(Clone, Copy)]
pub enum PriceTier {
    Reasoner,
    Chat,
}

/// The rates that hold for a model: by its name.
pub fn price_tier(model: &str) -> (r: PriceTier)
    ensures
        r is Reasoner <==> text::occurs(model@, "reasoner"@) || text::occurs(model@, "r1"@),
{
    if text::contains(model, "reasoner") || text::contains(model, "r1") {
        PriceTier::Reasoner
    } else {
        PriceTier::Chat
    }
}

} // verus!
