//! A private network of one's own devices.
//!
//! The verified core of a peer-to-peer virtual network and of its desktop
//! client:
//!
//!   * [`entry`], [`roster`], [`roster_laws`] and [`membership`]: who is in the
//!     network. Membership is a pile of signed entries that every node folds into
//!     the same roster by the same role rules.
//!   * [`router`], [`conntrack`] and [`packet_laws`]: which packets go where, and
//!     which inbound packets are let in while remote access is disabled.
//!   * [`ipc`], [`session`], [`pages`], [`page_laws`], [`dialogs`], [`qr`],
//!     [`window`] and [`args`]: what the desktop client knows, shows and asks.
//!   * [`ids`], [`idmap`], [`addr`], [`text`], [`cbor`], [`crypto`] and [`clock`]:
//!     the ground that the rest stands on, with the calls into other crates.
//!
//! Sockets, files, widgets and the replicated document are outside of this crate.

pub mod addr;
pub mod args;
pub mod cbor;
pub mod clock;
pub mod conntrack;
pub mod crypto;
pub mod dialogs;
pub mod entry;
pub mod idmap;
pub mod ids;
pub mod ipc;
pub mod membership;
pub mod packet_laws;
pub mod page_laws;
pub mod pages;
pub mod qr;
pub mod roster;
pub mod roster_laws;
pub mod router;
pub mod session;
pub mod text;
pub mod window;
