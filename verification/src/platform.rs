//! The interface between the editing core and the platform layer that hosts
//! it: the keys a client can press, the events a server or client reacts
//! to, and the traits a host implements to drive an application.
//!
//! The core defines only the data and the contracts of this boundary; the
//! hosting program supplies the implementations.

use vstd::prelude::*;

verus! {

/// A key press, as the platform layer reports it.
#[derive(Clone, Copy, PartialEq, Eq, Structural, Debug)]
pub enum Key {
    NoKey,
    Backspace,
    Enter,
    Left,
    Right,
    Up,
    Down,
    Home,
    End,
    PageUp,
    PageDown,
    Tab,
    Delete,
    F(u8),
    Char(char),
    Ctrl(char),
    Alt(char),
    Esc,
}

/// What a server reacts to: connections opening, closing and speaking, and
/// spawned processes producing output or exiting.
#[derive(Clone, Copy, PartialEq, Eq, Structural, Debug)]
pub enum ServerEvent {
    Idle,
    Redraw,
    ConnectionOpen { index: usize },
    ConnectionClose { index: usize },
    ConnectionMessage { index: usize, len: usize },
    ProcessStdout { index: usize, len: usize },
    ProcessStderr { index: usize, len: usize },
    ProcessExit { index: usize, success: bool },
}

/// What a client reacts to: a resize, a key, or a message from the server.
#[derive(Clone, Copy, PartialEq, Eq, Structural, Debug)]
pub enum ClientEvent {
    Resize(usize, usize),
    Key(Key),
    Message(usize),
}

/// The command-line arguments an application is started with. The host
/// parses them; the core only reads the session name.
pub trait Args: Sized {
    fn parse() -> Option<Self>;

    fn session(&self) -> Option<&str>;
}

/// The platform services a client application runs against: reading bytes
/// from and writing bytes to its server connection.
pub trait ClientPlatform {
    fn read(&self, len: usize) -> &[u8];

    fn write(&mut self, buf: &[u8]) -> bool;
}

/// A client application: constructed from its arguments, then driven by the
/// platform's events until it asks to stop by returning false.
pub trait ClientApplication: Sized {
    type Args: Args;

    fn connection_buffer_len() -> usize;

    fn new<P: ClientPlatform>(args: Self::Args, platform: &mut P) -> Self;

    fn on_events<P: ClientPlatform>(&mut self, platform: &mut P, events: &[ClientEvent]) -> bool;
}

} // verus!
