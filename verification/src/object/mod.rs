//! The objects that a document is made of.
pub mod ext_g_state;
pub mod mask;
pub mod xobject;
