pub mod builtins;
pub mod fragments;
pub mod render;
