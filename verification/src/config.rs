//! How a session is to be started.

use vstd::prelude::*;

use crate::path::UnixPath;
use crate::protocol::WindowSize;
use crate::text;
use crate::text::copy_text;

verus! {

/// Configuration for a new session.
#[derive(Debug, Clone)]
pub struct SessionConfig {
    /// Path to the shell program.
    pub program: String,
    /// Arguments to the shell.
    pub args: Vec<String>,
    /// Environment variables for the shell.
    pub env: Vec<(String, String)>,
    /// Working directory for the shell.
    pub working_directory: Option<UnixPath>,
    /// Initial terminal size.
    pub initial_size: WindowSize,
    /// Path for the Unix domain socket.
    pub socket_path: UnixPath,
    /// Maximum number of scrollback lines for the terminal emulator.
    pub max_scrollback_lines: usize,
}

/// What a [`SessionConfig`] says.
#[verifier::ext_equal]
pub struct SessionConfigView {
    pub program: Seq<char>,
    pub args: Seq<Seq<char>>,
    pub env: Seq<(Seq<char>, Seq<char>)>,
    pub working_directory: Option<Seq<u8>>,
    pub initial_size: WindowSize,
    pub socket_path: Seq<u8>,
    pub max_scrollback_lines: usize,
}

/// The texts of a list of pairs of strings.
pub open spec fn pairs(v: Seq<(String, String)>) -> Seq<(Seq<char>, Seq<char>)> {
    Seq::new(v.len(), |i: int| (v[i].0@, v[i].1@))
}

/// The bytes of a path, where there is one.
pub open spec fn maybe_path(p: Option<UnixPath>) -> Option<Seq<u8>> {
    match p {
        Some(path) => Some(path@),
        None => None,
    }
}

impl View for SessionConfig {
    type V = SessionConfigView;

    open spec fn view(&self) -> SessionConfigView {
        SessionConfigView {
            program: self.program@,
            args: text::strings(self.args@),
            env: pairs(self.env@),
            working_directory: maybe_path(self.working_directory),
            initial_size: self.initial_size,
            socket_path: self.socket_path@,
            max_scrollback_lines: self.max_scrollback_lines,
        }
    }
}

/// The shell that a session runs by default: the user's, where it is known.
pub open spec fn default_shell(shell: Option<Seq<char>>) -> Seq<char> {
    match shell {
        Some(s) => s,
        None => "/bin/sh"@,
    }
}

/// The configuration that a session has by default.
pub open spec fn default_config(shell: Option<Seq<char>>) -> SessionConfigView {
    SessionConfigView {
        program: default_shell(shell),
        args: seq![],
        env: seq![],
        working_directory: None,
        initial_size: WindowSize { cols: 80, rows: 24, cell_width: 8, cell_height: 16 },
        socket_path: seq![],
        max_scrollback_lines: 10_000,
    }
}

/// The text of a string, where there is one.
pub open spec fn maybe_text(s: Option<String>) -> Option<Seq<char>> {
    match s {
        Some(s) => Some(s@),
        None => None,
    }
}

impl SessionConfig {
    /// The default configuration, for a user whose shell (`$SHELL`) is this.
    pub fn default_for(shell: Option<String>) -> (config: SessionConfig)
        ensures
            config@ == default_config(maybe_text(shell)),
    {
        let program: String = match shell {
            Some(s) => s,
            None => copy_text("/bin/sh"),
        };
        let config = SessionConfig {
            program,
            args: Vec::new(),
            env: Vec::new(),
            working_directory: None,
            initial_size: WindowSize { cols: 80, rows: 24, cell_width: 8, cell_height: 16 },
            socket_path: UnixPath { bytes: Vec::new() },
            max_scrollback_lines: 10_000,
        };
        assert(config@ =~= default_config(maybe_text(shell)));
        config
    }
}

} // verus!
