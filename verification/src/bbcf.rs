//! Blazblue Centralfiction file formats.

pub mod hip;
pub mod hpl;
pub mod pac;
