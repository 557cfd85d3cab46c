//! A client library for a content-addressed build store.
//!
//! - `version`: version strings parsed into comparable triples, and the
//!   version gates a library version satisfies.
//! - `context`: errors, and the bridge from a native call's error context to
//!   a `Result`.
//! - `path`: store paths, owned as a 20-byte hash and a name.
//! - `results`: accumulators for strings and path sets that a native call
//!   delivers through a callback.
//! - `outputs`: the outputs of a build, in lexicographic order of their names.
//! - `init`: the one-time initialization of the native library.
//! - `registry`: open connections, their strong and weak handles, and the
//!   cache that coalesces opens with the same parameters.
//! - `derivation`: build recipes, exchanged as derivation JSON.
pub mod context;
pub mod derivation;
pub mod init;
pub mod outputs;
pub mod path;
pub mod registry;
pub mod results;
pub mod version;
