//! An interpreter for the esoteric programming language Befunge-98, with the
//! funge space, the stack stack, the instruction set and the scheduling of
//! instruction pointers verified.

pub mod axis;
pub mod config;
pub mod files;
pub mod instruction;
pub mod ip;
pub mod point;
pub mod program;
pub mod space;
pub mod stack;
pub mod text;
pub mod tree;

pub use config::{Config, ExecAction, FileView, Input, Trace};
pub use ip::Ip;
pub use point::{Delta, Point};
pub use program::{Context, ExecResult, Program, Request};
pub use space::Space;
pub use stack::StackStack;
