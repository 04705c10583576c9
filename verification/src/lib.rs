//! Streaming protocol translator for an Anthropic-style SSE gateway.
//!
//! The converter rebuilds Anthropic's block-oriented event framing
//! (`content_block_start` / `content_block_delta` / `content_block_stop`)
//! from upstream chunked deltas that carry no such framing, and the update
//! module holds the version-comparison logic behind the release checker.

pub mod converter;
pub mod events;
pub mod strutil;
pub mod update;
