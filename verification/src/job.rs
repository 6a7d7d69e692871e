//! From the command line and the configuration's file list to the jobs to
//! run: which entries are patched, and from and to which paths.

use crate::args::{command_view, Args, ArgsView, Commands, CommandsView};
use crate::descriptor::PatchDescriptor;
use crate::text::opt_text;
use vstd::prelude::*;

verus! {

/// The menu title of an entry that has neither a title nor an input path.
pub const UNKNOWN_TITLE: &'static str = "Unknown";

/// The largest configuration file that is read, in bytes.
pub const MAX_CONFIG_BYTES: u64 = 10485760;

/// The switches of a configuration.
#[derive(Clone, Copy, Debug, PartialEq, Eq, Structural)]
pub struct Settings {
    /// Whether messages carry a bracketed tag.
    pub log_style: bool,
    /// Whether the entry to patch is picked from a menu.
    pub use_menu: bool,
}

/// One entry of the configuration's file list.
#[derive(Debug, Default, PartialEq, Eq)]
pub struct FileConfig {
    /// The name shown in the menu.
    pub title: Option<String>,
    /// Path of the file to read.
    pub input: Option<String>,
    /// Path of the file to read, under its other name; `input` goes first.
    pub open: Option<String>,
    /// Path of the file to write; the input path where none is given.
    pub output: Option<String>,
    /// The descriptors to run, in order.
    pub patches: Vec<PatchDescriptor>,
    /// Path of the symbol dump.
    pub dump_cs: Option<String>,
    /// Whether a failure of this job ends the whole run.
    pub require: bool,
}

/// The paths of one job.
#[derive(Debug, PartialEq, Eq)]
pub struct JobPaths {
    pub input: String,
    pub output: String,
}

/// Which entries of the file list a run goes through.
#[derive(Clone, Copy, Debug, PartialEq, Eq, Structural)]
pub enum Selection {
    /// Show the example configuration; no entry is patched.
    Example,
    /// The entry at this index, which exists.
    Single(usize),
    /// The command line names an index that the file list does not have.
    InvalidIndex,
    /// The entry that the user picks from the menu.
    Menu,
    /// Every entry, in list order.
    All,
}

/// Which entries are gone through, for a command line, a file list of
/// `file_count` entries and the configuration's menu flag.
pub open spec fn selection(args: ArgsView, file_count: nat, use_menu: bool) -> Selection {
    if args.example_config {
        Selection::Example
    } else {
        match args.command {
            Some(CommandsView::Open { input, index }) => match index {
                Some(i) => if i < file_count {
                    Selection::Single(i)
                } else {
                    Selection::InvalidIndex
                },
                None => Selection::Menu,
            },
            None => if use_menu {
                Selection::Menu
            } else {
                Selection::All
            },
        }
    }
}

/// The path that an entry is read from: `input`, else `open`.
pub open spec fn configured_input(input: Option<Seq<char>>, open: Option<Seq<char>>) -> Option<
    Seq<char>,
> {
    match input {
        Some(path) => Some(path),
        None => open,
    }
}

/// The paths of the job for an entry. With the `Open` subcommand the file
/// named there is patched in place; otherwise the entry's own paths hold,
/// the output falling back to the input. `None` where no input is known.
pub open spec fn job_paths(
    command: Option<CommandsView>,
    input: Option<Seq<char>>,
    open: Option<Seq<char>>,
    output: Option<Seq<char>>,
) -> Option<(Seq<char>, Seq<char>)> {
    match command {
        Some(CommandsView::Open { input: path, index }) => Some((path, path)),
        None => match configured_input(input, open) {
            Some(path) => Some(
                (
                    path,
                    match output {
                        Some(out) => out,
                        None => path,
                    },
                ),
            ),
            None => None,
        },
    }
}

/// The title under which an entry stands in the menu: its title, else its
/// input path, else a fixed word.
pub open spec fn menu_title(title: Option<Seq<char>>, input: Option<Seq<char>>) -> Seq<char> {
    match title {
        Some(t) => t,
        None => match input {
            Some(path) => path,
            None => UNKNOWN_TITLE@,
        },
    }
}

/// Whether a configuration file of `size` bytes is too large to be read.
pub fn config_too_large(size: u64) -> (r: bool)
    ensures
        r == (size > MAX_CONFIG_BYTES),
{
    size > MAX_CONFIG_BYTES
}

/// The switches of a configuration; one that is not given is on.
pub fn settings(style: Option<bool>, menu: Option<bool>) -> (r: Settings)
    ensures
        r.log_style == (style != Some(false)),
        r.use_menu == (menu != Some(false)),
{
    Settings {
        log_style: match style {
            Some(on) => on,
            None => true,
        },
        use_menu: match menu {
            Some(on) => on,
            None => true,
        },
    }
}

/// Decides which entries of the file list a run goes through.
pub fn select_files(args: &Args, file_count: usize, use_menu: bool) -> (r: Selection)
    ensures
        r == selection(args@, file_count as nat, use_menu),
{
    if args.example_config {
        return Selection::Example;
    }
    match &args.command {
        Some(Commands::Open { input, index }) => match index {
            Some(i) => if *i < file_count {
                Selection::Single(*i)
            } else {
                Selection::InvalidIndex
            },
            None => Selection::Menu,
        },
        None => if use_menu {
            Selection::Menu
        } else {
            Selection::All
        },
    }
}

/// Works out the paths of the job for `file`.
pub fn paths_for(command: &Option<Commands>, file: &FileConfig) -> (r: Option<JobPaths>)
    ensures
        match job_paths(
            command_view(*command),
            opt_text(file.input),
            opt_text(file.open),
            opt_text(file.output),
        ) {
            Some((input, output)) => r is Some && r->0.input@ == input && r->0.output@ == output,
            None => r is None,
        },
{
    match command {
        Some(Commands::Open { input, index }) => Some(
            JobPaths { input: input.clone(), output: input.clone() },
        ),
        None => {
            let input = match &file.input {
                Some(path) => path.clone(),
                None => match &file.open {
                    Some(path) => path.clone(),
                    None => {
                        return None;
                    },
                },
            };
            let output = match &file.output {
                Some(path) => path.clone(),
                None => input.clone(),
            };
            Some(JobPaths { input, output })
        },
    }
}

/// The title under which `file` stands in the menu.
pub fn title_of(file: &FileConfig) -> (r: String)
    ensures
        r@ == menu_title(opt_text(file.title), opt_text(file.input)),
{
    match &file.title {
        Some(title) => title.clone(),
        None => match &file.input {
            Some(path) => path.clone(),
            None => UNKNOWN_TITLE.to_owned(),
        },
    }
}

} // verus!
