//! Secrets shared through standard input or the environment.
use vstd::prelude::*;
use crate::unsupported::Unsupported;

verus! {

pub struct SimpleSecretsProvider;

impl SimpleSecretsProvider {
    /// A JSON secret read from standard input; refused, not implemented.
    pub fn read_json_secret_from_stdin() -> (r: Result<String, Unsupported>)
        ensures
            r == Err::<String, Unsupported>(Unsupported::StdinSecret),
    {
        Err(Unsupported::StdinSecret)
    }
}

} // verus!
