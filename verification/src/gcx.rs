//! Plain data describing graphics resources.
//!
//! The engine core never issues draw calls; the graphics layer is an
//! external collaborator.  What lives here is the configuration data that
//! scene authors assemble and hand to that layer: shader source stages and
//! texture format descriptions.

pub mod shader;
pub mod texture;
