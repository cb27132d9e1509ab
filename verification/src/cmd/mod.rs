//! The commands that talk to the operating system over and over, as what
//! they decide in between.

pub mod run;
