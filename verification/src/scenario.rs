//! The declarative scenario: steps, assertions, extractors and the load
//! profile, plus scenario validation.

use crate::duration::HumanDuration;
use crate::errors::ConfigError;
use crate::strutil::{spec_decimal, u64_to_string};
use vstd::prelude::*;

verus! {

/// Scenario header: a name and an optional description.
#[derive(Clone, Debug)]
pub struct ScenarioInfo {
    pub name: String,
    pub description: Option<String>,
}

/// The target-concurrency curve over test time.
#[derive(Clone, Debug)]
pub enum LoadProfile {
    /// A flat level of `users`, optionally reached by a linear ramp, held
    /// until `duration`.
    Constant { users: usize, duration: HumanDuration, ramp_up: Option<HumanDuration> },
    /// Linear interpolation from `from` to `to` over `duration`; holds at
    /// `to` afterwards.
    Ramp { from: usize, to: usize, duration: HumanDuration },
    /// Piecewise-constant levels, each held for its own duration.
    Stepped { steps: Vec<LoadStep> },
    /// `peak` users for `spike_duration` at the start of the test, then
    /// `baseline` until `total_duration`.
    Spike {
        baseline: usize,
        peak: usize,
        spike_duration: HumanDuration,
        total_duration: HumanDuration,
    },
}

/// One level of a stepped load profile.
#[derive(Clone, Copy, Debug)]
pub struct LoadStep {
    pub users: usize,
    pub duration: HumanDuration,
}

/// One request definition within a scenario.
#[derive(Clone, Debug)]
pub struct Step {
    pub name: String,
    pub protocol: String,
    pub method: String,
    pub url: String,
    pub headers: Vec<(String, String)>,
    pub body: Option<String>,
    pub assertions: Option<Assertions>,
    pub extract: Vec<(String, Extractor)>,
}

/// The checks a step's response must pass.
#[derive(Clone, Debug)]
pub struct Assertions {
    pub status: Option<u16>,
    pub max_response_time: Option<HumanDuration>,
    pub body_contains: Option<String>,
}

/// How to pull a correlation variable out of a step outcome.
#[derive(Clone, Debug)]
pub struct Extractor {
    pub from: String,
    pub extractor_type: String,
    pub expr: String,
}

/// A whole scenario: header, load profile and ordered steps.
#[derive(Clone, Debug)]
pub struct Scenario {
    pub scenario: ScenarioInfo,
    pub load_profile: LoadProfile,
    pub steps: Vec<Step>,
}

/// A step is acceptable when its name and target are non-empty.
pub open spec fn spec_step_ok(s: Step) -> bool {
    s.name@.len() > 0 && s.url@.len() > 0
}

/// A scenario is acceptable when it is named, has at least one step, and
/// every step is acceptable.
pub open spec fn spec_scenario_ok(sc: Scenario) -> bool {
    &&& sc.scenario.name@.len() > 0
    &&& sc.steps@.len() > 0
    &&& forall|i: int| 0 <= i < sc.steps@.len() ==> spec_step_ok(#[trigger] sc.steps@[i])
}

/// The field path reported for step `i`'s missing name.
pub open spec fn spec_step_name_path(i: int) -> Seq<char> {
    "steps["@ + spec_decimal(i as nat) + "].name"@
}

/// The field path reported for step `i`'s missing target.
pub open spec fn spec_step_url_path(i: int) -> Seq<char> {
    "steps["@ + spec_decimal(i as nat) + "].url"@
}

impl Scenario {
    /// Check the scenario's validity: succeeds exactly on acceptable
    /// scenarios, and otherwise reports the first violation found, walking
    /// the header first and then the steps in order.
    pub fn validate(&self) -> (r: Result<(), ConfigError>)
        ensures
            r is Ok <==> spec_scenario_ok(*self),
            self.scenario.name@.len() == 0 ==> (r matches Err(e) && e matches
                ConfigError::MissingField(m) && m@ == "scenario.name"@),
            self.scenario.name@.len() > 0 && self.steps@.len() == 0 ==> (r matches Err(e)
                && e matches ConfigError::InvalidScenario(m) && m@
                == "Scenario must have at least one step"@),
            self.scenario.name@.len() > 0 && self.steps@.len() > 0 && !spec_scenario_ok(*self)
                ==> (exists|i: int|
                {
                    &&& 0 <= i < self.steps@.len()
                    &&& !spec_step_ok(self.steps@[i])
                    &&& (forall|j: int| 0 <= j < i ==> spec_step_ok(#[trigger] self.steps@[j]))
                    &&& r matches Err(e)
                    &&& e matches ConfigError::MissingField(m)
                    &&& (if self.steps@[i].name@.len() == 0 {
                        m@ == spec_step_name_path(i)
                    } else {
                        m@ == spec_step_url_path(i)
                    })
                }),
    {
        if self.scenario.name.as_str().is_empty() {
            return Err(ConfigError::MissingField(path_str("scenario.name")));
        }
        if self.steps.len() == 0 {
            return Err(
                ConfigError::InvalidScenario(path_str("Scenario must have at least one step")),
            );
        }
        let n = self.steps.len();
        let mut i: usize = 0;
        while i < n
            invariant
                i <= n,
                n == self.steps@.len(),
                self.scenario.name@.len() > 0,
                self.steps@.len() > 0,
                forall|j: int| 0 <= j < i ==> spec_step_ok(#[trigger] self.steps@[j]),
            decreases n - i,
        {
            if self.steps[i].name.as_str().is_empty() {
                return Err(ConfigError::MissingField(step_path(i, true)));
            }
            if self.steps[i].url.as_str().is_empty() {
                return Err(ConfigError::MissingField(step_path(i, false)));
            }
            i += 1;
        }
        Ok(())
    }
}

/// A literal field path as an owned string.
fn path_str(s: &str) -> (r: String)
    ensures
        r@ == s@,
{
    s.to_owned()
}

/// The reported field path for step `i`: its name or its target.
fn step_path(i: usize, name: bool) -> (r: String)
    ensures
        name ==> r@ == spec_step_name_path(i as int),
        !name ==> r@ == spec_step_url_path(i as int),
{
    let mut s = path_str("steps[");
    let num = u64_to_string(i as u64);
    s.append(num.as_str());
    if name {
        s.append("].name");
    } else {
        s.append("].url");
    }
    proof {
        if name {
            assert(s@ =~= spec_step_name_path(i as int));
        } else {
            assert(s@ =~= spec_step_url_path(i as int));
        }
    }
    s
}

} // verus!
