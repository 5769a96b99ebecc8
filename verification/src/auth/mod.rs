//! Accounts and sessions: the backend API's requests and answers, the
//! access-token lifecycle and the stored tokens.
pub mod client;
pub mod token_store;
pub mod jwt;
