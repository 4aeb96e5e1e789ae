//! A mesh of volunteers' machines that keeps a shared job running.
//!
//! A node finds other nodes, notices when one of them leaves or dies, and sees
//! to it that the job it was running goes on elsewhere from where it was. A
//! probe tells beforehand what an internet connection can do. This library holds
//! what both of them decide; sockets, clocks and printing are left to a program
//! around it.
//!
//! - Jobs: `job` runs one in a sandbox (`guest`) and talks to it in frames
//!   (`frame`); `factory` is a job, and `ledger` says what jobs have made.
//! - The mesh: `node` decides, as `mesh` models it, over what peers (`peer`,
//!   `peermap`) say to each other (`message`) and who runs the job (`work`);
//!   `conduct` says what has to come of each thing that happens, and `history`
//!   what holds over a whole run. `notice` and `event` are what a node tells its
//!   operator, `settings` what it is told, and `portmap` how it asks a router for
//!   a port.
//! - The probe: `stun`, `verdict`, `lifetime`, `punch` and `probe`.
//! - What all of them use: `addr`, `bytes`, `chance`, `clock`, `digest`, `json`,
//!   `order`, `span`, `text` and `utf8`.
pub mod addr;
pub mod bytes;
pub mod chance;
pub mod clock;
pub mod conduct;
pub mod digest;
pub mod event;
pub mod factory;
pub mod frame;
pub mod guest;
pub mod history;
pub mod job;
pub mod json;
pub mod ledger;
pub mod lifetime;
pub mod mesh;
pub mod message;
pub mod node;
pub mod notice;
pub mod order;
pub mod peer;
pub mod peermap;
pub mod portmap;
pub mod probe;
pub mod punch;
pub mod settings;
pub mod span;
pub mod stun;
pub mod text;
pub mod utf8;
pub mod verdict;
pub mod work;
