//! Core data model: durations, per-virtual-user state, and step outcomes.

use crate::strutil::str_eq;
use vstd::prelude::*;

verus! {

/// A span of time, counted in whole nanoseconds.
///
/// The engine keeps all time arithmetic in integer nanoseconds so that every
/// computation over durations is exact.
#[derive(Clone, Copy, Debug, PartialEq, Eq, Structural)]
pub struct DurationNanos {
    pub nanos: u64,
}

pub const NANOS_PER_MILLI: u64 = 1_000_000;

pub const NANOS_PER_SEC: u64 = 1_000_000_000;

impl DurationNanos {
    pub fn from_nanos(nanos: u64) -> (r: DurationNanos)
        ensures
            r.nanos == nanos,
    {
        DurationNanos { nanos }
    }

    pub fn from_millis(millis: u64) -> (r: DurationNanos)
        requires
            millis * NANOS_PER_MILLI <= u64::MAX,
        ensures
            r.nanos == millis * NANOS_PER_MILLI,
    {
        DurationNanos { nanos: millis * NANOS_PER_MILLI }
    }

    pub fn from_secs(secs: u64) -> (r: DurationNanos)
        requires
            secs * NANOS_PER_SEC <= u64::MAX,
        ensures
            r.nanos == secs * NANOS_PER_SEC,
    {
        DurationNanos { nanos: secs * NANOS_PER_SEC }
    }

    /// Whole milliseconds contained in this span, truncated.
    pub fn as_millis(&self) -> (r: u64)
        ensures
            r == self.nanos / NANOS_PER_MILLI,
    {
        self.nanos / NANOS_PER_MILLI
    }

    /// Whole seconds contained in this span, truncated.
    pub fn as_secs(&self) -> (r: u64)
        ensures
            r == self.nanos / NANOS_PER_SEC,
    {
        self.nanos / NANOS_PER_SEC
    }

    /// Milliseconds of the fractional second, in `0 .. 1000`.
    pub fn subsec_millis(&self) -> (r: u64)
        ensures
            r == (self.nanos % NANOS_PER_SEC) / NANOS_PER_MILLI,
            r < 1000,
    {
        (self.nanos % NANOS_PER_SEC) / NANOS_PER_MILLI
    }
}

/// Unique identifier of a virtual user.
#[derive(Clone, Copy, Debug, PartialEq, Eq, Hash, Structural)]
pub struct VirtualUserId(pub usize);

/// Iteration counter of a virtual user.
#[derive(Clone, Copy, Debug, PartialEq, Eq, Structural)]
pub struct Iteration(pub u64);

/// The finalized outcome of one step execution, as the aggregator ingests it.
#[derive(Clone, Debug)]
pub struct StepResult {
    pub step_name: String,
    pub success: bool,
    pub duration: DurationNanos,
    pub error: Option<String>,
    pub status_code: Option<u16>,
    pub bytes_sent: u64,
    pub bytes_received: u64,
}

/// The variable bindings of an association list, later entries shadowing
/// earlier ones.
pub open spec fn vars_map(s: Seq<(String, String)>) -> Map<Seq<char>, Seq<char>>
    decreases s.len(),
{
    if s.len() == 0 {
        Map::empty()
    } else {
        vars_map(s.drop_last()).insert(s.last().0@, s.last().1@)
    }
}

/// No two entries share a key.
pub open spec fn vars_unique(s: Seq<(String, String)>) -> bool {
    forall|i: int, j: int| 0 <= i < j < s.len() ==> s[i].0@ != s[j].0@
}

/// A key that appears in no entry is not in the map.
proof fn lemma_vars_map_absent(s: Seq<(String, String)>, k: Seq<char>)
    requires
        forall|i: int| 0 <= i < s.len() ==> s[i].0@ != k,
    ensures
        !vars_map(s).contains_key(k),
    decreases s.len(),
{
    if s.len() > 0 {
        lemma_vars_map_absent(s.drop_last(), k);
    }
}

/// With unique keys, an entry's key maps to that entry's value.
proof fn lemma_vars_map_found(s: Seq<(String, String)>, i: int)
    requires
        vars_unique(s),
        0 <= i < s.len(),
    ensures
        vars_map(s).contains_key(s[i].0@),
        vars_map(s)[s[i].0@] == s[i].1@,
    decreases s.len(),
{
    if i == s.len() - 1 {
    } else {
        assert(s.last().0@ != s[i].0@);
        assert(s.drop_last()[i] == s[i]);
        assert(vars_unique(s.drop_last()));
        lemma_vars_map_found(s.drop_last(), i);
    }
}

/// Replacing an entry's value updates exactly that key in the map.
proof fn lemma_vars_map_update(s: Seq<(String, String)>, i: int, p: (String, String))
    requires
        vars_unique(s),
        0 <= i < s.len(),
        p.0@ == s[i].0@,
    ensures
        vars_unique(s.update(i, p)),
        vars_map(s.update(i, p)) == vars_map(s).insert(p.0@, p.1@),
    decreases s.len(),
{
    let t = s.update(i, p);
    if i == s.len() - 1 {
        assert(t.drop_last() =~= s.drop_last());
        assert(t.last() == p);
        assert(vars_map(t) =~= vars_map(s).insert(p.0@, p.1@));
    } else {
        assert(t.drop_last() =~= s.drop_last().update(i, p));
        assert(t.last() == s.last());
        assert(vars_unique(s.drop_last())) by {
            assert(forall|a: int, b: int|
                0 <= a < b < s.len() - 1 ==> s.drop_last()[a] == s[a] && s.drop_last()[b] == s[b]);
        }
        assert(s.drop_last()[i] == s[i]);
        lemma_vars_map_update(s.drop_last(), i, p);
        assert(s.last().0@ != p.0@);
        assert(vars_map(t) =~= vars_map(s).insert(p.0@, p.1@));
        assert(vars_unique(t)) by {
            assert(forall|a: int| 0 <= a < t.len() - 1 ==> t[a].0@ == s.drop_last().update(
                i,
                p,
            )[a].0@);
        }
    }
}

/// The state a virtual user carries across its iterations: its identity, an
/// iteration counter and the variables extracted from earlier responses.
#[derive(Clone, Debug)]
pub struct VirtualUserContext {
    pub id: usize,
    pub iteration: u64,
    pub variables: Vec<(String, String)>,
}

impl VirtualUserContext {
    /// The variable bindings, as a map from name to value.
    pub closed spec fn vars(&self) -> Map<Seq<char>, Seq<char>> {
        vars_map(self.variables@)
    }

    /// The variable store holds each name at most once.
    pub closed spec fn wf(&self) -> bool {
        vars_unique(self.variables@)
    }

    /// A fresh context: first iteration, no variables bound.
    pub fn new(id: usize) -> (r: VirtualUserContext)
        ensures
            r.wf(),
            r.id == id,
            r.iteration == 0,
            r.variables@.len() == 0,
            r.vars() == Map::<Seq<char>, Seq<char>>::empty(),
    {
        VirtualUserContext { id, iteration: 0, variables: Vec::new() }
    }

    /// Step to the next iteration.
    pub fn next_iteration(&mut self)
        requires
            old(self).iteration < u64::MAX,
        ensures
            final(self).iteration == old(self).iteration + 1,
            final(self).id == old(self).id,
            final(self).vars() == old(self).vars(),
            final(self).wf() == old(self).wf(),
    {
        self.iteration = self.iteration + 1;
    }

    /// Bind a variable, overwriting any earlier binding of the same name.
    pub fn set_variable(&mut self, key: String, value: String)
        requires
            old(self).wf(),
            old(self).variables@.len() < usize::MAX,
        ensures
            final(self).wf(),
            final(self).vars() == old(self).vars().insert(key@, value@),
            final(self).variables@.len() <= old(self).variables@.len() + 1,
            final(self).id == old(self).id,
            final(self).iteration == old(self).iteration,
    {
        let n = self.variables.len();
        let mut i: usize = 0;
        while i < n
            invariant
                i <= n,
                n == self.variables@.len(),
                *self == *old(self),
                vars_unique(self.variables@),
                forall|j: int| 0 <= j < i ==> self.variables@[j].0@ != key@,
            decreases n - i,
        {
            if str_eq(self.variables[i].0.as_str(), key.as_str()) {
                let ghost before = self.variables@;
                let entry = &mut self.variables[i];
                entry.1 = value;
                proof {
                    let p = self.variables@[i as int];
                    assert(p.0@ == key@);
                    assert(self.variables@ =~= before.update(i as int, p));
                    lemma_vars_map_update(before, i as int, p);
                }
                return ;
            }
            i += 1;
        }
        let ghost before = self.variables@;
        self.variables.push((key, value));
        proof {
            let p = self.variables@.last();
            assert(self.variables@.drop_last() =~= before);
            assert(vars_map(self.variables@) == vars_map(before).insert(p.0@, p.1@));
        }
    }

    /// Look a variable up; the last value bound to the name, if any.
    pub fn get_variable(&self, key: &str) -> (r: Option<&String>)
        requires
            self.wf(),
        ensures
            match r {
                Some(v) => self.vars().contains_key(key@) && v@ == self.vars()[key@],
                None => !self.vars().contains_key(key@),
            },
    {
        let n = self.variables.len();
        let mut i: usize = 0;
        while i < n
            invariant
                i <= n,
                n == self.variables@.len(),
                self.wf(),
                forall|j: int| 0 <= j < i ==> self.variables@[j].0@ != key@,
            decreases n - i,
        {
            if str_eq(self.variables[i].0.as_str(), key) {
                proof {
                    lemma_vars_map_found(self.variables@, i as int);
                }
                return Some(&self.variables[i].1);
            }
            i += 1;
        }
        proof {
            lemma_vars_map_absent(self.variables@, key@);
        }
        None
    }
}

} // verus!
