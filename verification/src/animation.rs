//! Naming the animation a model plays.

use vstd::prelude::*;

verus! {

/// The name of the animation configuration that a model plays.
#[derive(Debug, Clone, PartialEq, Eq, Hash)]
pub struct ModelAnimation(pub String);

impl ModelAnimation {
    /// The animation called `config_name`.
    pub fn new(config_name: &str) -> (a: ModelAnimation)
        ensures
            a.0@ == config_name@,
    {
        ModelAnimation(config_name.to_owned())
    }
}

} // verus!
