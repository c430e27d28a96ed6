//! A declarative access-policy language: "who may do what to which
//! resource, under which conditions, touching which fields".
//!
//! The core is the policy engine: the abstract syntax tree (`policy`),
//! a lexer for annotation text (`token`), a recursive-descent parser
//! (`parser`), a canonical renderer proved to round-trip with the
//! parser (`render`), a deterministic compiler into an IAM-style JSON
//! document (`compiler`, `iam_policy_compiler`), and a per-function
//! registry with idempotent, replacing upserts (`registry`).
//!
//! Around the engine stand the decision and key-schema functions of the
//! messaging service the policies protect (`data_model`, `util`,
//! `auth`), and the deployment annotation of a function (`lambda`).

pub mod policy;
pub mod token;
pub mod parser;
pub mod render;
pub mod text;
pub mod compiler;
pub mod iam_policy_compiler;
pub mod registry;
pub mod data_model;
pub mod util;
pub mod lambda;
pub mod auth;
