//! A terminal multiplexer's verified core: the cell grid, its escape-sequence
//! parser, input decoding, pane layout and the small protocol helpers around them.

pub mod style;
pub mod grid;
pub mod screen;
pub mod utf8;
pub mod parser;
pub mod layout;
pub mod text;
pub mod session;
pub mod input;
pub mod app;
pub mod config;
pub mod rename;
pub mod terminal;
pub mod graphics;
pub mod shell;
pub mod protocol;
pub mod render;
pub mod manager;
pub mod window;
pub mod fuzzing;
pub mod benchmarking;
pub mod theme;
pub mod picker;
pub mod cli;
pub mod control;
pub mod chrome;
pub mod tabs;
pub mod server;
pub mod reload;
pub mod attention;
pub mod dispatch;
pub mod restore;
pub mod spawn;
pub mod routing;
pub mod line_ops;
pub mod key_names;
pub mod resizing;
pub mod style_codes;

use vstd::prelude::*;

verus! {

/// The prefix key (Ctrl-b).
pub const PREFIX: u8 = 0x02;

/// Retained lines of history per pane.
pub const SCROLLBACK_LINES: usize = 1_000;

/// Written on entering the client terminal: the alternate screen first, then
/// Kitty keyboard flags, focus reports and SGR mouse reporting.
pub const TERMINAL_ENTER_SEQUENCE: [u8; 37] = [
    0x1b, 0x5b, 0x3f, 0x31, 0x30, 0x34, 0x39, 0x68, 0x1b, 0x5b, 0x3e, 0x30,
    0x75, 0x1b, 0x5b, 0x3f, 0x31, 0x30, 0x30, 0x34, 0x68, 0x1b, 0x5b, 0x3f,
    0x31, 0x30, 0x30, 0x33, 0x68, 0x1b, 0x5b, 0x3f, 0x31, 0x30, 0x30, 0x36,
    0x68,
];

/// Written on leaving: every mode is reset and the alternate screen is left last,
/// so nothing drawn by the multiplexer reaches the shell's scrollback.
pub const TERMINAL_EXIT_SEQUENCE: [u8; 106] = [
    0x1b, 0x5b, 0x3f, 0x32, 0x30, 0x32, 0x36, 0x6c, 0x1b, 0x5b, 0x30, 0x20,
    0x71, 0x1b, 0x5b, 0x30, 0x6d, 0x1b, 0x5d, 0x31, 0x31, 0x32, 0x1b, 0x5c,
    0x1b, 0x5d, 0x32, 0x32, 0x3b, 0x1b, 0x5c, 0x1b, 0x5b, 0x3f, 0x31, 0x6c,
    0x1b, 0x5b, 0x3f, 0x32, 0x30, 0x30, 0x34, 0x6c, 0x1b, 0x5b, 0x3f, 0x31,
    0x30, 0x30, 0x30, 0x6c, 0x1b, 0x5b, 0x3f, 0x31, 0x30, 0x30, 0x32, 0x6c,
    0x1b, 0x5b, 0x3f, 0x31, 0x30, 0x30, 0x33, 0x6c, 0x1b, 0x5b, 0x3f, 0x31,
    0x30, 0x30, 0x34, 0x6c, 0x1b, 0x5b, 0x3f, 0x31, 0x30, 0x30, 0x36, 0x6c,
    0x1b, 0x5b, 0x3f, 0x35, 0x35, 0x32, 0x32, 0x6c, 0x1b, 0x5b, 0x3c, 0x75,
    0x1b, 0x3e, 0x1b, 0x5b, 0x3f, 0x31, 0x30, 0x34, 0x39, 0x6c,
];

/// Sent by a server to an attaching client to hand it over to another session.
pub const SERVER_SWITCH_SESSION_PREFIX: [u8; 29] = [
    0x1b, 0x5d, 0x37, 0x37, 0x37, 0x3b, 0x72, 0x75, 0x73, 0x74, 0x6d, 0x75,
    0x78, 0x2d, 0x73, 0x77, 0x69, 0x74, 0x63, 0x68, 0x2d, 0x73, 0x65, 0x73,
    0x73, 0x69, 0x6f, 0x6e, 0x3d,
];

/// Sent by a server whose session already has an attached client.
pub const SERVER_SESSION_BUSY: [u8; 27] = [
    0x1b, 0x5d, 0x37, 0x37, 0x37, 0x3b, 0x72, 0x75, 0x73, 0x74, 0x6d, 0x75,
    0x78, 0x2d, 0x73, 0x65, 0x73, 0x73, 0x69, 0x6f, 0x6e, 0x2d, 0x62, 0x75,
    0x73, 0x79, 0x07,
];

} // verus!
