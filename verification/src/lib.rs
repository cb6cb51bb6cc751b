//! A stack-backtrace capture and symbolication engine.
//!
//! The library walks a captured call stack into a sequence of frames, maps
//! each raw instruction pointer to the loaded module that owns it, rebases
//! the address into the module's own address space, and looks the rebased
//! address up in the module's symbol table.  The pieces are:
//!
//! * [`guard`] — a process-wide re-entrant advisory lock serializing calls
//!   into non-thread-safe platform debug APIs;
//! * [`inventory`] — the loaded-module inventory and its load-record parser;
//! * [`object`] — the object-container reader exposing segment ranges and a
//!   symbol table;
//! * [`trace`] — the unwinder, walking a captured stack snapshot;
//! * [`symbolize`] — address-to-symbol resolution over inventory and objects;
//! * [`capture`] — owned, self-contained backtrace snapshots;
//! * [`wtf8`] — the byte-level string storage used for module paths;
//! * [`metadata`] — plain-value file metadata records;
//! * [`fileio`] — in-memory positional and streaming byte I/O models;
//! * [`bytes`] — bounds-checked big-endian readers over raw buffers.
//!
//! All enumeration of live OS state (the loaded-module list, the raw stack
//! words, the module files themselves) happens outside this library; every
//! function here computes over plain values handed in by its caller.

pub mod bytes;

pub mod capture;

pub mod fileio;

pub mod guard;

pub mod inventory;

pub mod metadata;

pub mod object;

pub mod symbolize;

pub mod trace;

pub mod wtf8;
