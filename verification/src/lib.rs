//! The logic of a mail viewer's keyring and of checking and opening PGP mail:
//! what the status codes of gpg and gmime mean, the listing of the keyring,
//! the commands run against it, and where translations are looked for.

pub mod decrypt;
pub mod keys;
pub mod message;
pub mod paths;
pub mod signature;
pub mod text;
