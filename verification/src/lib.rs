//! Candidate-node selection and command execution for rolling a scale set's
//! node pool forward from a prototype node.
//!
//! The selector (`node_selection`) picks, from a snapshot of the cluster's
//! nodes (`node`, `ready_time`), the nodes that may serve as the prototype,
//! longest ready first. The execution engine (`engine`, `command`,
//! `command_error`, `clock`) decides how a command is run: what is logged
//! with the secrets masked (`redaction`), when it is tried again and after
//! which wait, and what the run gives. The settings of both are validated
//! values (`argument_types`, `pattern`); `text` holds what all of them need
//! of strings and numbers.

pub mod argument_types;
pub mod clock;
pub mod command;
pub mod command_error;
pub mod engine;
pub mod node;
pub mod node_selection;
pub mod pattern;
pub mod ready_time;
pub mod redaction;
pub mod text;
