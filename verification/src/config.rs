use vstd::prelude::*;

verus! {

/// Connection settings for the CI backend: the endpoint URL and optional
/// credentials. Loaded from a configuration file by the surrounding program;
/// the library only reads the values.
#[derive(Debug, Clone)]
pub struct Config {
    pub osci_url: String,
    pub user: Option<String>,
    pub password: Option<String>,
}

/// The backend URL used when the configuration file does not name one.
pub fn default_osci() -> (url: String)
    ensures
        url@ == "http://10.245.162.58:8080/"@,
{
    String::from_str("http://10.245.162.58:8080/")
}

impl Config {
    /// A configuration equivalent to an empty configuration file: the default
    /// backend URL and no credentials.
    pub fn with_defaults() -> (c: Config)
        ensures
            c.osci_url@ == "http://10.245.162.58:8080/"@,
            c.user is None,
            c.password is None,
    {
        Config { osci_url: default_osci(), user: None, password: None }
    }
}

} // verus!
