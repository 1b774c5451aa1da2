//! Console commands of the game server.
use vstd::prelude::*;

verus! {

/// The command that works on player accounts.
pub struct GameCommand;

impl GameCommand {
    /// The words that call this command: `account` and `a`.
    pub fn get_aliases(&self) -> (aliases: Vec<&'static str>)
        ensures
            aliases@.len() == 2,
            aliases@[0]@ == "account"@,
            aliases@[1]@ == "a"@,
    {
        let mut aliases: Vec<&'static str> = Vec::new();
        aliases.push("account");
        aliases.push("a");
        aliases
    }
}

} // verus!
