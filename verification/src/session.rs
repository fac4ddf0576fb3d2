//! The settings that a session with the engine is built from.

use crate::arg::{args_view, Arg, ArgView};
use crate::format::OutputFormat;
use vstd::prelude::*;

verus! {

/// Collects the settings of a session: where its data lives, the arguments
/// that every query starts with, the default format of results, and whether
/// the data directory is removed when the session ends.
#[derive(Debug)]
pub struct SessionBuilder {
    data_path: String,
    default_args: Vec<Arg>,
    default_output_format: Option<OutputFormat>,
    auto_cleanup: bool,
}

/// What a [`SessionBuilder`] has collected.
pub struct SessionSettings {
    pub data_path: Seq<char>,
    pub default_args: Seq<ArgView>,
    pub default_output_format: Option<OutputFormat>,
    pub auto_cleanup: bool,
}

impl View for SessionBuilder {
    type V = SessionSettings;

    closed spec fn view(&self) -> SessionSettings {
        SessionSettings {
            data_path: self.data_path@,
            default_args: args_view(self.default_args@),
            default_output_format: self.default_output_format,
            auto_cleanup: self.auto_cleanup,
        }
    }
}

impl SessionBuilder {
    /// A builder with the given data directory, no arguments, no default
    /// format and no cleanup.
    pub fn new(data_path: String) -> (builder: Self)
        ensures
            builder@ == (SessionSettings {
                data_path: data_path@,
                default_args: Seq::empty(),
                default_output_format: None,
                auto_cleanup: false,
            }),
    {
        let builder = SessionBuilder {
            data_path,
            default_args: Vec::new(),
            default_output_format: None,
            auto_cleanup: false,
        };
        assert(builder@.default_args =~= Seq::empty());
        builder
    }

    /// Replaces the data directory.
    pub fn with_data_path(self, path: String) -> (builder: Self)
        ensures
            builder@ == (SessionSettings { data_path: path@, ..self@ }),
    {
        let mut builder = self;
        builder.data_path = path;
        builder
    }

    /// Adds one argument behind those that are there.
    pub fn with_arg(self, arg: Arg) -> (builder: Self)
        ensures
            builder@ == (SessionSettings { default_args: self@.default_args.push(arg@), ..self@ }),
    {
        let mut builder = self;
        builder.default_args.push(arg);
        assert(builder@.default_args =~= self@.default_args.push(arg@));
        builder
    }

    /// Says whether the data directory is removed when the session ends.
    pub fn with_auto_cleanup(self, value: bool) -> (builder: Self)
        ensures
            builder@ == (SessionSettings { auto_cleanup: value, ..self@ }),
    {
        let mut builder = self;
        builder.auto_cleanup = value;
        builder
    }

    /// Sets the default format of results, and adds the argument that asks
    /// the engine for it.
    pub fn with_output_format(self, format: OutputFormat) -> (builder: Self)
        ensures
            builder@ == (SessionSettings {
                default_output_format: Some(format),
                default_args: self@.default_args.push(ArgView::OutputFormat(format)),
                ..self@
            }),
    {
        let mut builder = self;
        builder.default_output_format = Some(format);
        builder.default_args.push(Arg::OutputFormat(format));
        assert(builder@.default_args =~= self@.default_args.push(ArgView::OutputFormat(format)));
        builder
    }

    /// The data directory.
    pub fn data_path(&self) -> (path: &str)
        ensures
            path@ == self@.data_path,
    {
        self.data_path.as_str()
    }

    /// The arguments collected so far, in the order in which they came.
    pub fn default_args(&self) -> (args: &Vec<Arg>)
        ensures
            args_view(args@) == self@.default_args,
    {
        &self.default_args
    }

    /// The default format of results, if one was set.
    pub fn default_output_format(&self) -> (format: Option<OutputFormat>)
        ensures
            format == self@.default_output_format,
    {
        self.default_output_format
    }

    /// Whether the data directory is removed when the session ends.
    pub fn auto_cleanup(&self) -> (value: bool)
        ensures
            value == self@.auto_cleanup,
    {
        self.auto_cleanup
    }
}

} // verus!
