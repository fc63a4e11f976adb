use vstd::prelude::*;

verus! {

/// A user to create. Parsed from the command line by the surrounding
/// process; the core only carries the values.
#[derive(Debug, PartialEq)]
pub struct CreateUser {
    pub name: String,
    pub email: String,
}

/// A user update.
#[derive(Debug, PartialEq)]
pub struct UpdateUser {
    pub new_name: String,
    pub new_email: String,
}

/// The command that prints the deduplicated discovered-peer set.
#[derive(Debug, PartialEq)]
pub struct ListShowPeers;

/// The command that queries the network for one target's articles.
#[derive(Debug, PartialEq)]
pub struct ListShowAricles {
    pub id: usize,
}

/// The command that appends a new article to the local store.
#[derive(Debug, PartialEq)]
pub struct CreateArticle {
    pub name: String,
    pub text: String,
}

/// One invocation of the program.
#[derive(Debug, PartialEq)]
pub enum CommandType {
    CreateUser(CreateUser),
    ListShowPeers(ListShowPeers),
    ListShowArticle(ListShowAricles),
    CreateArticle(CreateArticle),
}

/// The parsed command line.
#[derive(Debug, PartialEq)]
pub struct AppArgs {
    pub command_type: CommandType,
}

} // verus!
