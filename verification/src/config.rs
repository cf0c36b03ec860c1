//! The launcher's configuration (`enterance.ini`): the service endpoints
//! and where the game lives.
use vstd::prelude::*;

verus! {

/// The launcher's configuration.
#[derive(Hash, PartialEq, Eq, Clone, Debug)]
pub struct Config {
    pub update: String,
    pub login: String,
    pub world: String,
    pub characters: String,
    pub auth: String,
    pub account: String,
    pub path: Option<String>,
    pub lang: Option<String>,
}

impl Config {
    /// The configuration written when none exists: no endpoints, the game
    /// at `Binaries/TERA.exe` and the `EUR` language.
    pub fn new() -> (c: Config)
        ensures
            c.update@ == Seq::<char>::empty(),
            c.login@ == Seq::<char>::empty(),
            c.world@ == Seq::<char>::empty(),
            c.characters@ == Seq::<char>::empty(),
            c.auth@ == Seq::<char>::empty(),
            c.account@ == Seq::<char>::empty(),
            c.path matches Some(p) && p@ == "Binaries/TERA.exe"@,
            c.lang matches Some(l) && l@ == "EUR"@,
    {
        Config {
            update: String::new(),
            login: String::new(),
            world: String::new(),
            characters: String::new(),
            auth: String::new(),
            account: String::new(),
            path: Some(String::from_str("Binaries/TERA.exe")),
            lang: Some(String::from_str("EUR")),
        }
    }
}

} // verus!
