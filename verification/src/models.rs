//! What the operations take and what they answer with.

use vstd::prelude::*;

verus! {

/// A request to register a user.
#[derive(Clone, Debug)]
pub struct CreateUserPayload {
    pub user_name: String,
    pub user_password: String,
    pub user_role: String,
}

/// A user as shown to an administrator.
#[derive(Debug)]
pub struct GetUserResponse {
    pub user_id: String,
    pub user_name: String,
    pub user_password: String,
    pub user_role: String,
}

/// A user as stored.
#[derive(Debug)]
pub struct GetUsers {
    pub user_id: String,
    pub user_name: String,
    pub user_password: String,
    pub user_role: String,
}

/// The identity of a stored user.
#[derive(Debug)]
pub struct Users {
    pub user_id: String,
}

/// The answer to a registration.
#[derive(Debug)]
pub struct CreateUserResponse {
    pub status: bool,
}

/// A request to log in.
#[derive(Debug)]
pub struct LoginPayload {
    pub user_name: String,
    pub user_password: String,
}

/// The answer to a login: the token and the second at which it expires.
#[derive(Debug)]
pub struct LoginResponse {
    pub access_token: String,
    pub expires_at: i64,
}

/// A request to create a card. Colours are given by channel.
#[derive(Debug)]
pub struct CreateCardPayload {
    pub card_name: String,
    pub card_bank: String,
    pub card_primary_color: (u8, u8, u8),
    pub card_secondary_color: (u8, u8, u8),
}

/// The answer to an operation that changed a card.
#[derive(Debug)]
pub struct CardResponse {
    pub card_id: String,
    pub status: bool,
}

/// A request to delete a card.
#[derive(Debug)]
pub struct DeleteCardPayload {
    pub card_id: String,
}

/// A request to replace what is shown of a card.
#[derive(Debug)]
pub struct UpdateCardPayload {
    pub card_id: String,
    pub card_name: String,
    pub card_bank: String,
    pub card_primary_color: (u8, u8, u8),
    pub card_secondary_color: (u8, u8, u8),
}

/// A request for one card.
#[derive(Debug)]
pub struct GetCardForUser {
    pub card_id: String,
}

/// One card as shown to its owner, with its balance.
#[derive(Debug)]
pub struct ShowGetCardResponse {
    pub card_id: String,
    pub card_name: String,
    pub card_bank: String,
    pub card_primary_color: (u8, u8, u8),
    pub card_secondary_color: (u8, u8, u8),
    pub last_total_due: Option<i64>,
    pub last_delta: Option<i64>,
}

/// A report of a card's balance: the total now due, in minor units.
#[derive(Debug)]
pub struct InsertTransactionPayload {
    pub card_id: String,
    pub amount_due: i64,
}

/// The answer to a report: the id of the transaction and the change it
/// made to the balance, in minor units.
#[derive(Debug)]
pub struct InsertTransactionResponse {
    pub transaction_id: String,
    pub amount_due: i64,
    pub status: bool,
}

/// A request for the history of a card.
#[derive(Debug)]
pub struct GetHistoryPayload {
    pub card_id: String,
}

/// A request to reset a card.
#[derive(Debug)]
pub struct ResetTransactionsPayload {
    pub card_id: String,
}

/// One stored transaction as the store hands it out, its time as text.
#[derive(Debug)]
pub struct CardTransactionHistory {
    pub transaction_id: String,
    pub total_due_input: i64,
    pub timestamp: String,
}

} // verus!
