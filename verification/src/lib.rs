//! Per-request context extraction: turn an incoming request's metadata,
//! path and query bindings, peer information and body bytes into one
//! structured value that handler code can query uniformly.
//!
//! The two context types share one construction protocol: structural
//! metadata degrades leniently (a failed binder becomes an empty map, an
//! unresolved peer a fixed fallback address), while typed decoding of
//! parameters and payloads is strict and surfaces every mismatch. Typed
//! extraction runs through a structured-text bridge: a parameter map is
//! rendered to canonical structured text and decoded by the same entry
//! point that decodes body payloads, and a proved round-trip law keeps that
//! detour faithful to the map.

pub mod context;
pub mod json;
pub mod meta;
pub mod params;
pub mod peer;
pub mod shape;
pub mod text;
