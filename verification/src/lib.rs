//! Decides which packages of a project tree get built, and in which order.
//!
//! A root manifest describes one package or a workspace of several. The
//! member patterns of a workspace are expanded to candidate directories,
//! the candidates are put in order and narrowed by a path prefix, and the
//! packages that remain are built one after another until one fails.
//!
//! Nothing here touches the disk or starts a process: a [`orchestrator::Session`]
//! says what to read, expand or build next, and is told what came of it.
pub mod expander;
pub mod manifest;
pub mod orchestrator;
pub mod paths;
pub mod pipeline;
pub mod selector;
