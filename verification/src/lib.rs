//! Rendering core for a PolkaVM program-blob viewer.
//!
//! The library turns a raw byte buffer into two displayable sequences:
//! fixed-width hex/ASCII chunk lines (`chunks`), and an annotated
//! instruction listing driven by the `polkavm-common` decoder (`listing`,
//! `decode`). `search` locates the code's base address inside a raw
//! container, and `bin` bundles both views of one loaded buffer.

pub mod hexstr;
pub mod chunks;
pub mod listing;
pub mod search;
pub mod decode;
pub mod bin;
