//! A streaming XML-to-text converter: a small instruction program is compiled
//! from command-line style directives and replayed over the event stream of an
//! XML document, emitting text for document/tag events as they pass by.

pub mod text;
pub mod filter;
pub mod errors;
pub mod specifier;
pub mod program;
pub mod compile;
pub mod order;
pub mod event;
pub mod exec;
pub mod source;

pub use compile::{parse_to_instructions, Directive};
pub use errors::{CompileError, ExecError};
pub use event::Event;
pub use exec::{get_attr, process_events, Executor, Frame};
pub use filter::{Filters, TextFilter};
pub use order::{ordered_directives, FlagOccurrences};
pub use program::{check_program_wf, has_parent_attributes, Action, Attr, Instruction};
pub use source::{process, ProcessError};
