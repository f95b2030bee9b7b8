//! The core of an analysis engine for Erlang source: a lowered, id-addressed
//! representation of forms with a generic fold, diagnostic codes and their
//! suppression by comments, form-level diagnostics computed from a light
//! scanner, the conversion of an external analyzer's errors, and a fixpoint
//! codemod driver that applies fixes under a recursion bound.

pub mod assists;
pub mod children;
pub mod code;
pub mod codemod;
pub mod diagnostics;
pub mod fold;
pub mod forms;
pub mod hir;
pub mod ignore;
pub mod indent;
pub mod service;
pub mod source_map;
pub mod text;
