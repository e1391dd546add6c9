//! Command-line options.  The flag characters and their effects live
//! here; reading the actual command line is the caller's business.

use vstd::prelude::*;

verus! {

/// Determines the output format.
#[derive(Debug, Clone, Copy, PartialEq, Eq, Structural)]
pub enum OptionsDisplayMode {
    Default,
    OneLine,
}

/// Represents the state/usage of all command line options.
#[derive(Debug)]
pub struct Options {
    /// Print help and exit.
    pub print_help: bool,
    /// Disable the file count limit.
    pub disable_file_limit: bool,
    /// Determines the output format.
    pub display_mode: OptionsDisplayMode,
    /// Whether to follow symbolic links.
    pub follow_symlinks: bool,
    /// Whether to process hidden files.
    pub include_hidden_files: bool,
    /// Whether to recursively traverse the directory arguments.
    pub recursive: bool,
    /// Whether to stay within one filesystem.
    pub same_file_system: bool,
    /// If the display mode is OneLine, suppress the header row.
    pub suppress_oneline_header: bool,
    /// Argument index where options end.
    pub index: usize,
}

impl Options {
    /// The options before any flag is applied.
    pub fn new() -> (r: Options)
        ensures
            !r.print_help,
            !r.disable_file_limit,
            r.display_mode == OptionsDisplayMode::Default,
            !r.follow_symlinks,
            !r.include_hidden_files,
            !r.recursive,
            r.same_file_system,
            !r.suppress_oneline_header,
            r.index == 0,
    {
        Options {
            print_help: false,
            disable_file_limit: false,
            display_mode: OptionsDisplayMode::Default,
            follow_symlinks: false,
            include_hidden_files: false,
            recursive: false,
            same_file_system: true,
            suppress_oneline_header: false,
            index: 0,
        }
    }

    /// Applies one command-line flag.  A character outside the option
    /// set changes nothing.
    pub fn apply_flag(&mut self, flag: char)
        ensures
            final(self).print_help == (old(self).print_help || flag == 'h'),
            final(self).include_hidden_files == (old(self).include_hidden_files || flag == 'H'),
            final(self).display_mode == (if flag == 'l' || flag == 'L' {
                OptionsDisplayMode::OneLine
            } else {
                old(self).display_mode
            }),
            final(self).suppress_oneline_header == (old(self).suppress_oneline_header || flag
                == 'L'),
            final(self).recursive == (old(self).recursive || flag == 'r'),
            final(self).follow_symlinks == (old(self).follow_symlinks || flag == 'S'),
            final(self).disable_file_limit == (old(self).disable_file_limit || flag == 'U'),
            final(self).same_file_system == (old(self).same_file_system && flag != 'X'),
            final(self).index == old(self).index,
    {
        match flag {
            'h' => {
                self.print_help = true;
            },
            'H' => {
                self.include_hidden_files = true;
            },
            'l' => {
                self.display_mode = OptionsDisplayMode::OneLine;
            },
            'L' => {
                self.display_mode = OptionsDisplayMode::OneLine;
                self.suppress_oneline_header = true;
            },
            'r' => {
                self.recursive = true;
            },
            'S' => {
                self.follow_symlinks = true;
            },
            'U' => {
                self.disable_file_limit = true;
            },
            'X' => {
                self.same_file_system = false;
            },
            _ => {},
        }
    }

    /// Records the argument index where the options end.
    pub fn set_index(&mut self, index: usize)
        ensures
            *final(self) == (Options { index, ..*old(self) }),
    {
        self.index = index;
    }
}

} // verus!
