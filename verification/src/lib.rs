//! The type-resolution core of a structural type checker for a
//! TypeScript-like language.
//!
//! A module arrives as a list of declarations whose identifiers already carry
//! their hygienic scope markers. The analyzer records the declarations in a
//! per-module binding table, resolves type references on demand along a chain
//! of scopes, guards every resolution against cycles and runaway nesting, and
//! collects diagnostics instead of failing.
//!
//! * [`id`], [`ty`] and [`module`] hold the data that an analysis works on:
//!   identifiers, structural types and declarations.
//! * [`bindings`], [`merge`] and [`storage`] hold the binding tables, the
//!   rules by which declarations of one name merge, and the chain of scopes.
//! * [`module_id`], [`builtin`], [`env`] and [`loader`] are what an analysis
//!   is set up with: module identities, the built-in libraries and their
//!   cache, the shared environment, and the loader of imported modules.
//! * [`resolve`] says what resolution means, [`analyzer`] carries it out, and
//!   [`laws`] states what holds of it for every input.
//! * [`harness`] holds the fixtures for trying the analyzer on one file.
pub mod id;
pub mod ty;
pub mod module;
pub mod bindings;
pub mod merge;
pub mod storage;
pub mod module_id;
pub mod builtin;
pub mod env;
pub mod loader;
pub mod resolve;
pub mod analyzer;
pub mod laws;
pub mod harness;
