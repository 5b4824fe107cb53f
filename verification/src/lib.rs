//! Verified core of an MCP server that drives GDB through its machine interface:
//! the session registry, the parsing of user-supplied numbers, the decisions taken on
//! GDB's answers, the text of tool responses, and the hexdump and screen layout models.

pub mod command;
pub mod display;
pub mod error;
pub mod hexdump;
pub mod parse;
pub mod responses;
pub mod session;
pub mod text;
