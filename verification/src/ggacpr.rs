//! Guilty Gear XX Accent Core +R

pub mod obj;
pub mod script;
