use vstd::prelude::*;

verus! {

/// The command line of the compiler: one command.
#[derive(Debug)]
pub struct Config {
    /// The command to run.
    pub cmd: Command,
}

/// The commands of the compiler.
#[derive(Debug)]
pub enum Command {
    /// Compiles the workspace at `path`; with `autorun`, again on each change.
    Compile {
        /// Path to a craine workspace.
        path: String,
        /// Whether to compile again on each change.
        autorun: bool,
    },
    /// Initializes a new craine project at `path`.
    Init {
        /// Path to a directory.
        path: String,
    },
}

impl Command {
    /// The path that the command names.
    pub fn path(&self) -> (res: &String)
        ensures
            res == match self {
                Command::Compile { path, .. } => path,
                Command::Init { path } => path,
            },
    {
        match self {
            Command::Compile { path, .. } => path,
            Command::Init { path } => path,
        }
    }
}

} // verus!
