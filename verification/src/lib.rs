//! A queue between Nix's `post-build-hook` and a slow upload hook.
//!
//! The library holds what the daemon and its clients decide; every function says
//! in its contract what it decides. The threads, the sockets, the processes and
//! the clock are the caller's: each decision takes what they brought as plain
//! values, and says what to do with them next.
//!
//! - The queue and its requests: [`protocol`], [`daemon`], [`metrics`].
//! - Pausing: [`gate`], [`network_state`].
//! - The workers and their hooks: [`worker`], [`hook`], [`terminate`], [`closure`].
//! - The sockets: [`socket_activation`], [`listeners`], [`client`].
//! - What holds of all of it together: [`system`] for each step, [`history`] for
//!   whole runs.
//! - What the others need: [`text`], [`decimal`], [`clock`].

pub mod client;
pub mod clock;
pub mod closure;
pub mod daemon;
pub mod decimal;
pub mod gate;
pub mod history;
pub mod hook;
pub mod listeners;
pub mod metrics;
pub mod network_state;
pub mod protocol;
pub mod socket_activation;
pub mod system;
pub mod terminate;
pub mod text;
pub mod worker;
