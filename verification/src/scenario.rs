//! The named simulation scenarios and their load characteristics.

use vstd::prelude::*;
use vstd::string::StringExecFns;

verus! {

/// A predefined simulation scenario.
#[derive(Debug, Clone, Copy, PartialEq, Eq, Structural)]
pub enum Scenario {
    /// Uniform backends, constant load.
    SteadyState,
    /// A fifth of the backends are several times slower.
    HeterogeneousBackends,
    /// Random latency spikes hit backends.
    AntagonistSpikes,
    /// Load beyond the pool's capacity.
    Overload,
    /// Requests arrive in bursts.
    Bursty,
    /// Heterogeneous backends together with random spikes.
    Realistic,
    /// Some backends are persistently slower.
    NoisyNeighbor,
    /// Groups of backends slow down together.
    CorrelatedFailure,
    /// Sinusoidal load variation.
    WaveLoad,
}

/// The name each scenario goes by.
pub open spec fn spec_name(s: Scenario) -> Seq<char> {
    match s {
        Scenario::SteadyState => "steady-state"@,
        Scenario::HeterogeneousBackends => "heterogeneous"@,
        Scenario::AntagonistSpikes => "antagonist-spikes"@,
        Scenario::Overload => "overload"@,
        Scenario::Bursty => "bursty"@,
        Scenario::Realistic => "realistic"@,
        Scenario::NoisyNeighbor => "noisy-neighbor"@,
        Scenario::CorrelatedFailure => "correlated-failure"@,
        Scenario::WaveLoad => "wave-load"@,
    }
}

/// The scenario a name denotes, if any.
pub open spec fn spec_from_name(s: Seq<char>) -> Option<Scenario> {
    if s == "steady-state"@ {
        Some(Scenario::SteadyState)
    } else if s == "heterogeneous"@ {
        Some(Scenario::HeterogeneousBackends)
    } else if s == "antagonist-spikes"@ {
        Some(Scenario::AntagonistSpikes)
    } else if s == "overload"@ {
        Some(Scenario::Overload)
    } else if s == "bursty"@ {
        Some(Scenario::Bursty)
    } else if s == "realistic"@ {
        Some(Scenario::Realistic)
    } else if s == "noisy-neighbor"@ {
        Some(Scenario::NoisyNeighbor)
    } else if s == "correlated-failure"@ {
        Some(Scenario::CorrelatedFailure)
    } else if s == "wave-load"@ {
        Some(Scenario::WaveLoad)
    } else {
        None
    }
}

impl Scenario {
    /// Every scenario, in a fixed order.
    pub fn all() -> (r: Vec<Scenario>)
        ensures
            r@ =~= seq![
                Scenario::SteadyState,
                Scenario::HeterogeneousBackends,
                Scenario::AntagonistSpikes,
                Scenario::Overload,
                Scenario::Bursty,
                Scenario::Realistic,
                Scenario::NoisyNeighbor,
                Scenario::CorrelatedFailure,
                Scenario::WaveLoad,
            ],
    {
        let mut v: Vec<Scenario> = Vec::new();
        v.push(Scenario::SteadyState);
        v.push(Scenario::HeterogeneousBackends);
        v.push(Scenario::AntagonistSpikes);
        v.push(Scenario::Overload);
        v.push(Scenario::Bursty);
        v.push(Scenario::Realistic);
        v.push(Scenario::NoisyNeighbor);
        v.push(Scenario::CorrelatedFailure);
        v.push(Scenario::WaveLoad);
        v
    }

    /// This scenario's name.
    pub fn name(&self) -> (r: &'static str)
        ensures
            r@ == spec_name(*self),
    {
        match self {
            Scenario::SteadyState => "steady-state",
            Scenario::HeterogeneousBackends => "heterogeneous",
            Scenario::AntagonistSpikes => "antagonist-spikes",
            Scenario::Overload => "overload",
            Scenario::Bursty => "bursty",
            Scenario::Realistic => "realistic",
            Scenario::NoisyNeighbor => "noisy-neighbor",
            Scenario::CorrelatedFailure => "correlated-failure",
            Scenario::WaveLoad => "wave-load",
        }
    }

    /// The scenario a name denotes, if any.
    pub fn from_name(name: &str) -> (r: Option<Scenario>)
        ensures
            r == spec_from_name(name@),
    {
        let n = name.to_owned();
        if n == String::from_str("steady-state") {
            Some(Scenario::SteadyState)
        } else if n == String::from_str("heterogeneous") {
            Some(Scenario::HeterogeneousBackends)
        } else if n == String::from_str("antagonist-spikes") {
            Some(Scenario::AntagonistSpikes)
        } else if n == String::from_str("overload") {
            Some(Scenario::Overload)
        } else if n == String::from_str("bursty") {
            Some(Scenario::Bursty)
        } else if n == String::from_str("realistic") {
            Some(Scenario::Realistic)
        } else if n == String::from_str("noisy-neighbor") {
            Some(Scenario::NoisyNeighbor)
        } else if n == String::from_str("correlated-failure") {
            Some(Scenario::CorrelatedFailure)
        } else if n == String::from_str("wave-load") {
            Some(Scenario::WaveLoad)
        } else {
            None
        }
    }

    /// Whether the scenario runs with heterogeneous backends.
    pub fn is_heterogeneous(&self) -> (r: bool)
        ensures
            r == (*self == Scenario::HeterogeneousBackends || *self == Scenario::Realistic),
    {
        match self {
            Scenario::HeterogeneousBackends => true,
            Scenario::Realistic => true,
            _ => false,
        }
    }

    /// Whether requests arrive in bursts.
    pub fn is_bursty(&self) -> (r: bool)
        ensures
            r == (*self == Scenario::Bursty || *self == Scenario::Realistic),
    {
        match self {
            Scenario::Bursty => true,
            Scenario::Realistic => true,
            _ => false,
        }
    }
}

} // verus!
