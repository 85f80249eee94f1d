//! Admin credentials, admin sessions and bot tokens.

pub mod audit;
pub mod laws;
pub mod password;
pub mod secrets;
pub mod session;
pub mod tokens;
