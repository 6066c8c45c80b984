//! A personal library of plain-text documents ("pages") whose structured
//! metadata ("frontmatter") is declared by user-authored schemas and projected
//! into a relational store.
//!
//! The crate holds the verified core: the schema model, the frontmatter codec,
//! the validator, the relational projector, and the planning side of the
//! commit pipeline. All file-system and database side effects are performed by
//! the embedding application, which feeds plain values in and carries the
//! returned plans (file contents, SQL text, bound parameters) out.

pub mod error;
pub mod frontmatter;
pub mod library;
pub mod num;
pub mod schema;
pub mod text;
pub mod value;
