//! What the command line asks for.

use vstd::prelude::*;

verus! {

/// What the program was asked to do.
#[derive(Debug, PartialEq, Eq)]
pub enum CommandLineParam {
    /// Write the documents into this directory.
    SavePathMode(String),
    /// Show how the program is called.
    UsageMode,
    /// The arguments are not understood.
    ParameterError,
}

/// What is known once the arguments are read.
#[derive(Debug, PartialEq, Eq)]
pub enum ParameterRequest {
    /// The arguments settle it.
    Settled(CommandLineParam),
    /// The documents go to this directory, if it is there or can be made.
    Directory(String),
}

/// Reads the arguments, the first of which is the program's own name.
/// Without further arguments the documents go to the current directory;
/// `-h` alone asks for the usage; `-path` with a directory names where the
/// documents go; anything else is an error.
pub fn parameter_check(args: &Vec<String>) -> (request: ParameterRequest)
    ensures
        args@.len() == 1 ==> (request matches ParameterRequest::Settled(
            CommandLineParam::SavePathMode(path),
        ) && path@ == "."@),
        args@.len() == 2 && args@[1]@ == "-h"@ ==> request == ParameterRequest::Settled(
            CommandLineParam::UsageMode,
        ),
        args@.len() == 3 && args@[1]@ == "-path"@ ==> (request matches ParameterRequest::Directory(
            path,
        ) && path@ == args@[2]@),
        !(args@.len() == 1 || (args@.len() == 2 && args@[1]@ == "-h"@) || (args@.len() == 3
            && args@[1]@ == "-path"@)) ==> request == ParameterRequest::Settled(
            CommandLineParam::ParameterError,
        ),
{
    if args.len() == 1 {
        return ParameterRequest::Settled(CommandLineParam::SavePathMode(".".to_owned()));
    }
    if args.len() == 2 {
        let help = "-h".to_owned();
        if args[1] == help {
            return ParameterRequest::Settled(CommandLineParam::UsageMode);
        }
    }
    if args.len() == 3 {
        let path_option = "-path".to_owned();
        if args[1] == path_option {
            return ParameterRequest::Directory(args[2].clone());
        }
    }
    ParameterRequest::Settled(CommandLineParam::ParameterError)
}

/// Settles a request for a directory once it is known whether the
/// directory is there: the path is accepted if it is, and the arguments
/// count as an error if it is not.
pub fn directory_checked(path: String, ready: bool) -> (param: CommandLineParam)
    ensures
        ready ==> param == CommandLineParam::SavePathMode(path),
        !ready ==> param == CommandLineParam::ParameterError,
{
    if ready {
        CommandLineParam::SavePathMode(path)
    } else {
        CommandLineParam::ParameterError
    }
}

} // verus!
