//! Transfer core of a resumable, directory-aware file sender: wire framing,
//! exclude patterns, the sender's ledger and the receiver's per-file decisions.

pub mod delivery;
pub mod exclude;
pub mod framing;
pub mod history;
pub mod ledger;
pub mod paths;
pub mod progress;
pub mod protocol;
pub mod receiver;
pub mod scan;
pub mod sender;
pub mod text;
pub mod units;
pub mod verbs;
