//! A verified library for parsing and building SMF (Standard MIDI File)
//! byte streams.
//!
//! The library works on in-memory byte sequences: the `reader` module parses
//! a stream and broadcasts the decoded messages to registered handlers, and
//! the `writer` module serializes a list of messages into a stream, with
//! optional running-status compression.

/// SMF formats and the variable length quantity codec
pub mod formats;
/// Enums representing SMF messages (meta event, MIDI event, system exclusive event)
pub mod messages;
/// SMF parser and handler
pub mod reader;
/// SMF builder
pub mod writer;
