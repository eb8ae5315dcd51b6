//! Glob-import expansion: a source-to-source rewrite step that recognizes
//! `import.meta.glob(pattern, options?)` calls in a module's syntax tree and
//! rewrites each into an object literal mapping resolved module specifiers to
//! either hoisted import bindings (eager mode) or deferred-load thunks (lazy
//! mode).

pub mod ast;
pub mod codegen;
pub mod resolve;
pub mod rewrite;
pub mod strnum;
