//! The settings that a session is started with.

use crate::shell::Osh;
use crate::table::Table;
use crate::utils::Utils;
use vstd::prelude::*;

verus! {

/// What the configuration file holds.
#[derive(Debug)]
pub struct ConfigFile {
    /// The aliases that a session starts with.
    pub aliases: Table,
    /// The text that ends the prompt.
    pub prompt: String,
    /// Whether diagnostic output is wanted.
    pub debug: bool,
    /// The user name shown in the prompt.
    pub username: String,
    /// The host name shown in the prompt.
    pub hostname: String,
}

impl ConfigFile {
    /// Whether this is the configuration of a session without a
    /// configuration file: no aliases, the prompt `$`, no diagnostic output,
    /// no user name and no host name.
    pub open spec fn is_fallback(&self) -> bool {
        &&& self.aliases@ == Map::<Seq<char>, Seq<char>>::empty()
        &&& self.prompt@ == seq!['$']
        &&& !self.debug
        &&& self.username@ == Seq::<char>::empty()
        &&& self.hostname@ == Seq::<char>::empty()
    }

    /// The configuration of a session: what was loaded from the
    /// configuration file, or the fallback where nothing could be loaded.
    pub fn new(loaded: Option<ConfigFile>) -> (r: ConfigFile)
        ensures
            loaded is Some ==> r == loaded->0,
            loaded is None ==> r.is_fallback(),
    {
        match loaded {
            Some(config) => config,
            None => {
                ConfigFile {
                    aliases: Table::new(),
                    prompt: Osh::default_prompt(),
                    debug: false,
                    username: String::new(),
                    hostname: String::new(),
                }
            },
        }
    }
}

impl Clone for ConfigFile {
    fn clone(&self) -> (r: ConfigFile)
        ensures
            r.aliases@ == self.aliases@,
            r.prompt@ == self.prompt@,
            r.debug == self.debug,
            r.username@ == self.username@,
            r.hostname@ == self.hostname@,
    {
        ConfigFile {
            aliases: self.aliases.clone(),
            prompt: self.prompt.clone(),
            debug: self.debug,
            username: self.username.clone(),
            hostname: self.hostname.clone(),
        }
    }
}

} // verus!
