//! Helpers that act only in a local environment.
use vstd::prelude::*;
use crate::env::{Environment, EnvironmentView};

verus! {

/// Whether the environment is a local one (local or development).
pub fn is_local(env: &Environment) -> (r: bool)
    ensures
        r == (env@ is Local || env@ is Development),
{
    match env {
        Environment::Local | Environment::Development => true,
        _ => false,
    }
}

/// Runs `f` in a local environment only; whether it ran is returned.
pub fn local_only<F: FnOnce()>(env: &Environment, f: F) -> (r: bool)
    requires
        f.requires(()),
    ensures
        r == (env@ is Local || env@ is Development),
{
    if is_local(env) {
        f();
        true
    } else {
        false
    }
}

} // verus!
