//! wdm: the rules of a Wayland display manager.
//!
//! Everything the display manager decides is here, as verified functions over
//! plain values: what crosses the socket to the PAM helper, what a greeter may
//! do and when, which outputs and sessions are offered, how a crashed greeter is
//! restarted. Opening devices, sockets and PAM is left to the program around it.
use vstd::prelude::*;

pub mod args;
pub mod auth;
pub mod backend;
pub mod comp;
pub mod config;
pub mod errscreen;
pub mod input;
pub mod login;
pub mod pamhelper;
pub mod pamwire;
pub mod render;
pub mod session;
pub mod sessions;
pub mod supervise;
pub mod text;
pub mod udev;
pub mod users;

verus! {

} // verus!
