//! Cross-module link checking for compiled Move modules (`dependencies`),
//! together with the change-set algebra (`effects`), the liveness lattice
//! (`liveness`) and the pretty-printing buffer (`ast_writer`) that the
//! toolchain builds on.
pub mod ast_writer;
pub mod dependencies;
pub mod effects;
pub mod file_format;
pub mod keyed;
pub mod link_lemmas;
pub mod liveness;
pub mod natives;
