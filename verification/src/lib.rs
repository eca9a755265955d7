//! Transaction validation for a ledger of unspent transaction outputs.
//!
//! The ledger state is a [`utxo::UtxoSet`]: a finite map from
//! [`transaction::UtxoPointer`] to [`transaction::Output`]. A
//! [`transaction::Transaction`] names the entries it spends, the outputs it
//! creates and one witness per spent entry. [`ledger::apply`] decides whether
//! the transaction may be applied and, if so, computes the next state; every
//! refusal is a value of [`error::Error`].
//!
//! Hashing and signature checking are done by the caller: a transaction
//! arrives with its identifier, a witness with the key that made it and the
//! identifier it was checked against. Everything else is decided here.
//!
//! Every function comes with a contract that says what it returns, over
//! mathematical values: a set of unspent outputs is a map, a transaction
//! holds sequences. [`ledger::outcome`] is what the ledger computes;
//! [`laws`] holds what follows from it.
pub mod address;
pub mod decimal;
pub mod error;
pub mod key;
pub mod laws;
pub mod ledger;
pub mod search;
pub mod transaction;
pub mod utxo;
pub mod value;
