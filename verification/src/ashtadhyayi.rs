//! An interface to the rules of the Ashtadhyayi and its settings.
use vstd::prelude::*;

verus! {

/// An interface to the rules of the Ashtadhyayi.
///
/// This lightweight struct holds the settings that affect how a word is derived, such as
/// whether to store the full derivation history or to skip it for speed.
#[derive(Debug)]
pub struct Ashtadhyayi {
    log_steps: bool,
}

impl Ashtadhyayi {
    /// Whether derivations made with these settings record their steps.
    pub closed spec fn logs_steps(&self) -> bool {
        self.log_steps
    }

    /// Creates an interface with sane defaults: steps are recorded.
    pub fn new() -> (r: Self)
        ensures
            r.logs_steps(),
    {
        Ashtadhyayi { log_steps: true }
    }

    /// Returns a builder that configures how the engine runs rules and saves derivational
    /// data, starting from the defaults.
    pub fn builder() -> (r: AshtadhyayiBuilder)
        ensures
            r.settings().logs_steps(),
    {
        AshtadhyayiBuilder::new()
    }
}

impl Default for Ashtadhyayi {
    fn default() -> (r: Self)
        ensures
            r.logs_steps(),
    {
        Self::new()
    }
}

/// Builds an `Ashtadhyayi` with settings other than the defaults.
pub struct AshtadhyayiBuilder {
    a: Ashtadhyayi,
}

impl AshtadhyayiBuilder {
    /// The settings that `build` returns.
    pub closed spec fn settings(&self) -> Ashtadhyayi {
        self.a
    }

    /// Creates a new builder with the default settings.
    fn new() -> (r: Self)
        ensures
            r.settings().logs_steps(),
    {
        Self { a: Ashtadhyayi::new() }
    }

    /// Whether to log individual steps of the prakriya or not.
    /// - If `true`, each `Prakriya` will contain a full history.
    /// - If `false`, the program will run faster.
    pub fn log_steps(self, value: bool) -> (r: Self)
        ensures
            r.settings().logs_steps() == value,
    {
        let mut b = self;
        b.a.log_steps = value;
        b
    }

    /// Creates an `Ashtadhyayi` object.
    pub fn build(self) -> (r: Ashtadhyayi)
        ensures
            r == self.settings(),
    {
        self.a
    }
}

} // verus!
