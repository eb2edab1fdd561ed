//! Signature compilation, masked pattern scanning over a module image, and
//! the lifecycle of a function hook.
pub mod pattern;
pub mod module;
pub mod hook;
