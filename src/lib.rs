//! Records window geometries per screen resolution and command name, and
//! resolves them back, plus the text protocol of the window-manager tools.
pub mod geometry;
pub mod lookup_laws;
pub mod mover;
pub mod orchestrator;
pub mod store;
pub mod text;
