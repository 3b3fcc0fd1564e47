//! What the command line asks for, once its options have been read.
use vstd::prelude::*;
use vstd::string::StringSliceAdditionalSpecFns;
use vstd::utf8::encode_utf8;
use crate::number::{parse_usize, usize_value};

verus! {

/// The cutoff depth used where none is given.
pub const DEFAULT_CUTOFF: usize = 20;

/// An evaluation to run: the judgment file, the run file and the cutoff depth.
#[derive(Debug)]
pub struct Config {
    pub qrelfile: String,
    pub runfile: String,
    pub cutoff: usize,
}

/// What the command line asks for.
#[derive(Debug)]
pub enum Command {
    /// Print the usage text.
    Help,
    /// Evaluate a run against judgments.
    Evaluate(Config),
}

/// Why the command line cannot be acted on.
#[derive(PartialEq, Eq, Structural, Debug, Clone, Copy)]
pub enum CliError {
    /// Fewer than two file paths were given.
    MissingPaths,
    /// The cutoff is not a nonnegative integer.
    BadCutoff,
}

impl Config {
    /// Decides what to do from the options read off the command line: whether
    /// help was asked for, the free arguments, and the cutoff's text if given.
    pub fn from_matches(help: bool, free: Vec<String>, cutoff: Option<String>) -> (r: Result<Command, CliError>)
        ensures
            help <==> r matches Ok(Command::Help),
            !help && free@.len() < 2 <==> r == Err::<Command, CliError>(CliError::MissingPaths),
            !help && free@.len() >= 2 && cutoff is Some && usize_value(encode_utf8(cutoff->Some_0@)) is None
                <==> r == Err::<Command, CliError>(CliError::BadCutoff),
            r matches Ok(Command::Evaluate(c)) ==> {
                &&& c.qrelfile@ == free@[0]@
                &&& c.runfile@ == free@[1]@
                &&& c.cutoff == match cutoff {
                    Some(k) => usize_value(encode_utf8(k@))->Some_0,
                    None => DEFAULT_CUTOFF,
                }
            },
    {
        if help {
            return Ok(Command::Help);
        }
        if free.len() < 2 {
            return Err(CliError::MissingPaths);
        }
        let cutoff = match cutoff {
            Some(k) => match parse_usize(k.as_str().as_bytes()) {
                Some(v) => v,
                None => return Err(CliError::BadCutoff),
            },
            None => DEFAULT_CUTOFF,
        };
        let mut free = free;
        let qrelfile = free.remove(0);
        let runfile = free.remove(0);
        Ok(Command::Evaluate(Config { qrelfile, runfile, cutoff }))
    }
}

} // verus!
