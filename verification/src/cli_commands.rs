//! The commands of the stand-alone command line, which runs them on an
//! engine directly and prints what comes back.

use vstd::prelude::*;
use crate::engine::KvsEngine;
use crate::error::KVSError;

verus! {

/// A command given on the command line.
#[derive(Debug, Clone, PartialEq, Eq)]
pub enum CLICommands {
    /// Set up value by key into KVS
    Put { key: String, value: String },
    /// Get value by key
    Get { key: String },
    /// Removes value by key
    Rm { key: String },
}

/// What is printed for a `Get`, for each outcome of the engine: the value, or
/// nothing where the key has none.
pub open spec fn output_of_get(outcome: Result<Option<String>, KVSError>) -> Seq<char> {
    match outcome {
        Ok(Some(value)) => value@,
        Ok(None) => Seq::empty(),
        Err(_) => "No such key"@,
    }
}

/// What is printed for a `Put`, for each outcome of the engine.
pub open spec fn output_of_set(outcome: Result<(), KVSError>) -> Seq<char> {
    match outcome {
        Ok(_) => Seq::empty(),
        Err(_) => "Cant set"@,
    }
}

/// What is printed for an `Rm`, for each outcome of the engine.
pub open spec fn output_of_remove(outcome: Result<(), KVSError>) -> Seq<char> {
    match outcome {
        Ok(_) => Seq::empty(),
        Err(_) => "Cant remove"@,
    }
}

/// `text` is what is printed for `command` run on the engine `before`, which
/// is left as `after`: the engine was asked once, for the operation the
/// command names and with the key and the value the command holds, and
/// `text` is what the outcome of that call becomes by [`output_of_get`],
/// [`output_of_set`] or [`output_of_remove`].
pub open spec fn printed<S: KvsEngine>(
    command: CLICommands,
    before: &S,
    after: &S,
    text: Seq<char>,
) -> bool {
    match command {
        CLICommands::Get { key } => exists|outcome: Result<Option<String>, KVSError>|
            #[trigger] before.get_gives(key@, after, outcome) && text == output_of_get(outcome),
        CLICommands::Put { key, value } => exists|outcome: Result<(), KVSError>|
            #[trigger] before.set_gives(key@, value@, after, outcome) && text == output_of_set(
                outcome,
            ),
        CLICommands::Rm { key } => exists|outcome: Result<(), KVSError>|
            #[trigger] before.remove_gives(key@, after, outcome) && text == output_of_remove(
                outcome,
            ),
    }
}

impl CLICommands {
    /// The text to print after a `Get` that ended in `outcome`.
    pub fn get_output(outcome: Result<Option<String>, KVSError>) -> (text: String)
        ensures
            text@ == output_of_get(outcome),
    {
        match outcome {
            Ok(Some(value)) => value,
            Ok(None) => String::new(),
            Err(_) => "No such key".to_owned(),
        }
    }

    /// The text to print after a `Put` that ended in `outcome`.
    pub fn set_output(outcome: Result<(), KVSError>) -> (text: String)
        ensures
            text@ == output_of_set(outcome),
    {
        match outcome {
            Ok(_) => String::new(),
            Err(_) => "Cant set".to_owned(),
        }
    }

    /// The text to print after an `Rm` that ended in `outcome`.
    pub fn remove_output(outcome: Result<(), KVSError>) -> (text: String)
        ensures
            text@ == output_of_remove(outcome),
    {
        match outcome {
            Ok(_) => String::new(),
            Err(_) => "Cant remove".to_owned(),
        }
    }

    /// Runs the command on `store` and returns the text to print for what
    /// the store returned, by [`CLICommands::get_output`],
    /// [`CLICommands::set_output`] or [`CLICommands::remove_output`].
    pub fn invoke_cmd<S: KvsEngine>(&self, store: &mut S) -> (text: String)
        ensures
            printed(*self, old(store), final(store), text@),
            self is Put ==> text@ == Seq::<char>::empty() || text@ == "Cant set"@,
            self is Rm ==> text@ == Seq::<char>::empty() || text@ == "Cant remove"@,
    {
        match self {
            CLICommands::Get { key } => CLICommands::get_output(store.get(key.clone())),
            CLICommands::Put { key, value } => CLICommands::set_output(
                store.set(key.clone(), value.clone()),
            ),
            CLICommands::Rm { key } => CLICommands::remove_output(store.remove(key.clone())),
        }
    }
}

} // verus!
