//! The arguments that a query is started with.

use crate::format::OutputFormat;
use crate::log_level::LogLevel;
use vstd::prelude::*;

verus! {

/// One argument for the engine.
#[derive(Debug, PartialEq, Eq)]
pub enum Arg {
    /// The engine's configuration file.
    ConfigFilePath(String),
    /// How much the engine logs.
    LogLevel(LogLevel),
    /// The format of the result.
    OutputFormat(OutputFormat),
    /// The query text holds several statements.
    MultiQuery,
    /// Any other argument: its name, and its value if it has one.
    Custom(String, Option<String>),
}

/// What an [`Arg`] says, with texts as character sequences.
pub enum ArgView {
    ConfigFilePath(Seq<char>),
    LogLevel(LogLevel),
    OutputFormat(OutputFormat),
    MultiQuery,
    Custom(Seq<char>, Option<Seq<char>>),
}

impl View for Arg {
    type V = ArgView;

    open spec fn view(&self) -> ArgView {
        match self {
            Arg::ConfigFilePath(path) => ArgView::ConfigFilePath(path@),
            Arg::LogLevel(level) => ArgView::LogLevel(*level),
            Arg::OutputFormat(format) => ArgView::OutputFormat(*format),
            Arg::MultiQuery => ArgView::MultiQuery,
            Arg::Custom(name, value) => ArgView::Custom(
                name@,
                match value {
                    Some(text) => Some(text@),
                    None => None,
                },
            ),
        }
    }
}

/// What `args` say, in order.
pub open spec fn args_view(args: Seq<Arg>) -> Seq<ArgView> {
    Seq::new(args.len(), |i: int| args[i]@)
}

} // verus!
