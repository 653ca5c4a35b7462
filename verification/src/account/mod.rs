//! The account domain: accounts, their lifecycle state, the argon2id password
//! credential, and the puppets an account owns.

pub mod name;
pub mod account;
pub mod puppet;
pub mod credential;
