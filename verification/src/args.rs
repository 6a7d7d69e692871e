//! What the command line asks for, as plain values.

use crate::text::opt_text;
use vstd::prelude::*;

verus! {

/// The subcommands.
#[derive(Debug, PartialEq, Eq)]
pub enum Commands {
    /// Patch the file at `input` in place, with the configuration entry
    /// at `index` or, without an index, one picked from the menu.
    Open { input: String, index: Option<usize> },
}

/// The parsed command line.
#[derive(Debug, Default, PartialEq, Eq)]
pub struct Args {
    /// The subcommand, if one was given.
    pub command: Option<Commands>,
    /// Path of the configuration file.
    pub config: Option<String>,
    /// Whether an example configuration is to be shown and nothing else
    /// done.
    pub example_config: bool,
    /// Whether the pause before exit is to be left out.
    pub no_pause: bool,
}

/// Mathematical content of a [`Commands`].
pub ghost enum CommandsView {
    Open { input: Seq<char>, index: Option<usize> },
}

impl View for Commands {
    type V = CommandsView;

    open spec fn view(&self) -> CommandsView {
        match *self {
            Commands::Open { input, index } => CommandsView::Open { input: input@, index },
        }
    }
}

/// The contents of an optional subcommand.
pub open spec fn command_view(command: Option<Commands>) -> Option<CommandsView> {
    match command {
        Some(c) => Some(c@),
        None => None,
    }
}

/// Mathematical content of an [`Args`].
pub ghost struct ArgsView {
    pub command: Option<CommandsView>,
    pub config: Option<Seq<char>>,
    pub example_config: bool,
    pub no_pause: bool,
}

impl View for Args {
    type V = ArgsView;

    open spec fn view(&self) -> ArgsView {
        ArgsView {
            command: command_view(self.command),
            config: opt_text(self.config),
            example_config: self.example_config,
            no_pause: self.no_pause,
        }
    }
}

} // verus!
