use vstd::prelude::*;
use vstd::string::StringExecFns;

verus! {

/// The errors that can come up while compiling a workspace.
#[derive(Debug, Clone, Copy)]
pub enum ErrorType {
    /// Any error related to the work directory: unable to open, permissions, ...
    WorkDir(&'static str),
    /// Any error related to the workspace configuration files.
    Workspace(&'static str),
    /// Permission errors or an unusable build directory.
    BuildDir(&'static str),
    /// Any error while parsing or writing a file.
    Parse(&'static str),
}

impl ErrorType {
    /// The tag that prefixes the message of each kind of error.
    pub open spec fn spec_tag(&self) -> Seq<char> {
        match self {
            ErrorType::WorkDir(_) => "[work_dir] "@,
            ErrorType::Workspace(_) => "[workspace] "@,
            ErrorType::BuildDir(_) => "[build_dir] "@,
            ErrorType::Parse(_) => "[parse] "@,
        }
    }

    /// The description carried by the error.
    pub open spec fn spec_detail(&self) -> Seq<char> {
        match self {
            ErrorType::WorkDir(s) => s@,
            ErrorType::Workspace(s) => s@,
            ErrorType::BuildDir(s) => s@,
            ErrorType::Parse(s) => s@,
        }
    }

    /// The human readable form of the error: its tag followed by its description,
    /// for instance `[parse] Empty variable name`.
    pub fn message(&self) -> (res: String)
        ensures
            res@ == self.spec_tag() + self.spec_detail(),
    {
        match self {
            ErrorType::WorkDir(s) => String::from_str("[work_dir] ").concat(s),
            ErrorType::Workspace(s) => String::from_str("[workspace] ").concat(s),
            ErrorType::BuildDir(s) => String::from_str("[build_dir] ").concat(s),
            ErrorType::Parse(s) => String::from_str("[parse] ").concat(s),
        }
    }
}

} // verus!
