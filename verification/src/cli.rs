use vstd::prelude::*;

verus! {

/// A command typed at one of the interactive front ends. Each subsystem
/// handles its own subset and refuses the rest.
pub enum CommandType {
    /// Leave the program.
    Exit,
    /// Timer commands: a title, a timeout in seconds, an optional message.
    Create(String, u32, Option<String>),
    Repeat(String),
    Delete(String),
    /// Contact-book commands.
    AddContact(String, String, String, String),
    UpdateContact(String, Option<String>, Option<String>, Option<String>, Option<String>),
    RemoveContact(String),
    SearchContact(String),
    /// Virtual-filesystem commands, over textual paths.
    Cd(String),
    Ls(Vec<String>),
    Touch(Vec<String>),
    Rm(Vec<String>),
    Mkdir(Vec<String>),
    Read(Vec<String>),
    Write(String, String),
    Save(String),
    Load(String),
}

} // verus!
