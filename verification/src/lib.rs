//! A workbench of small verified components.
//!
//! - [`pool`]: a fixed-size worker pool over one closable FIFO channel, as a
//!   verified state machine, with the laws that hold of every run.
//! - [`minigrep`]: the lines of a text that contain a query.
//! - [`pig_latin`]: a pig-latin transformer for words and texts.
//! - [`employee_manager`]: a staff directory by department and the commands
//!   of its prompt.
//! - [`statistics`]: the modes and the middle of a list of integers.
//! - [`shirts`], [`units`], [`slices`], [`arith`]: small helpers.
//! - [`text`]: the text primitives that the modules above share.

pub mod arith;
pub mod employee_manager;
pub mod minigrep;
pub mod pig_latin;
pub mod pool;
pub mod shirts;
pub mod slices;
pub mod statistics;
pub mod text;
pub mod units;
