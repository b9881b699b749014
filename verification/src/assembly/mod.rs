//! Inline assembly: from GNU extended asm, as Clang hands it out, to the
//! operands, template and options of a Rust `asm!`.

pub mod constraint_laws;
pub mod constraints;
pub mod convert;
pub mod operands;
pub mod pairing;
pub mod pairing_laws;
pub mod plan_laws;
pub mod reserved;
pub mod statement;
pub mod statement_laws;
pub mod syntax;
pub mod template;
pub mod template_laws;
pub mod tokens;
