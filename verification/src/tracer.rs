//! What the tracer backend decides without touching a process: the state of
//! a traced process, the choice of thread registry, and its counters.

use crate::text::str_eq;
use vstd::prelude::*;

verus! {

/// The state of a traced process.
#[derive(Debug, Clone, Copy, PartialEq, Eq, Structural)]
pub enum ProcessState {
    Uninitialized,
    Initialized,
    Spawning,
    Suspended,
    Attaching,
    Attached,
    Running,
    Detaching,
    Failed,
}

impl ProcessState {
    /// The number under which the controller reports the state.
    pub open spec fn number(self) -> u32 {
        match self {
            ProcessState::Uninitialized => 0,
            ProcessState::Initialized => 1,
            ProcessState::Spawning => 2,
            ProcessState::Suspended => 3,
            ProcessState::Attaching => 4,
            ProcessState::Attached => 5,
            ProcessState::Running => 6,
            ProcessState::Detaching => 7,
            ProcessState::Failed => 8,
        }
    }

    /// The number under which the controller reports the state.
    pub fn as_code(&self) -> (code: u32)
        ensures
            code == self.number(),
    {
        match self {
            ProcessState::Uninitialized => 0,
            ProcessState::Initialized => 1,
            ProcessState::Spawning => 2,
            ProcessState::Suspended => 3,
            ProcessState::Attaching => 4,
            ProcessState::Attached => 5,
            ProcessState::Running => 6,
            ProcessState::Detaching => 7,
            ProcessState::Failed => 8,
        }
    }

    /// The state that the controller reports under `code`.
    pub fn from_code(code: u32) -> (state: Option<ProcessState>)
        ensures
            match state {
                Some(s) => s.number() == code,
                None => code > 8,
            },
    {
        match code {
            0 => Some(ProcessState::Uninitialized),
            1 => Some(ProcessState::Initialized),
            2 => Some(ProcessState::Spawning),
            3 => Some(ProcessState::Suspended),
            4 => Some(ProcessState::Attaching),
            5 => Some(ProcessState::Attached),
            6 => Some(ProcessState::Running),
            7 => Some(ProcessState::Detaching),
            8 => Some(ProcessState::Failed),
            _ => None,
        }
    }
}

/// Whether the C++ thread registry is used: what the setting says where it
/// says yes or no, else what the program was built for.
pub open spec fn uses_cpp_registry(setting: Option<Seq<char>>, built_for_cpp: bool) -> bool {
    match setting {
        Some(value) => if value == "true"@ || value == "1"@ || value == "yes"@ {
            true
        } else if value == "false"@ || value == "0"@ || value == "no"@ {
            false
        } else {
            built_for_cpp
        },
        None => built_for_cpp,
    }
}

/// Chooses the thread registry from the value of the setting, if it is set,
/// and from what the program was built for.
pub fn should_use_cpp_registry(setting: Option<&str>, built_for_cpp: bool) -> (use_cpp: bool)
    ensures
        use_cpp == uses_cpp_registry(
            match setting {
                Some(value) => Some(value@),
                None => None,
            },
            built_for_cpp,
        ),
{
    match setting {
        Some(value) => {
            if str_eq(value, "true") || str_eq(value, "1") || str_eq(value, "yes") {
                true
            } else if str_eq(value, "false") || str_eq(value, "0") || str_eq(value, "no") {
                false
            } else {
                built_for_cpp
            }
        },
        None => built_for_cpp,
    }
}

/// The name of the chosen registry for logs and metrics.
pub fn get_registry_implementation_name(use_cpp: bool) -> (name: &'static str)
    ensures
        name@ == if use_cpp {
            "cpp"@
        } else {
            "c"@
        },
{
    if use_cpp {
        "cpp"
    } else {
        "c"
    }
}

/// Counters of a thread registry: how often it registered and looked up, and
/// the time that took in all. The counters wrap round at 64 bits.
#[derive(Debug, Clone, Copy, PartialEq, Eq, Structural)]
pub struct RegistryMetrics {
    pub registration_count: u64,
    pub registration_time_ns: u64,
    pub lookup_count: u64,
    pub lookup_time_ns: u64,
}

/// `a + b` in 64 bits, wrapping round.
pub open spec fn wrapped_sum(a: u64, b: u64) -> u64 {
    if a + b > u64::MAX {
        (a + b - u64::MAX - 1) as u64
    } else {
        (a + b) as u64
    }
}

/// Computes [`wrapped_sum`].
fn wrapping_sum(a: u64, b: u64) -> (sum: u64)
    ensures
        sum == wrapped_sum(a, b),
{
    if a > u64::MAX - b {
        a - (u64::MAX - b) - 1
    } else {
        a + b
    }
}

impl RegistryMetrics {
    /// Counters at zero.
    pub fn new() -> (m: Self)
        ensures
            m == (RegistryMetrics {
                registration_count: 0,
                registration_time_ns: 0,
                lookup_count: 0,
                lookup_time_ns: 0,
            }),
    {
        RegistryMetrics {
            registration_count: 0,
            registration_time_ns: 0,
            lookup_count: 0,
            lookup_time_ns: 0,
        }
    }

    /// Counts one registration that took `duration_ns`.
    pub fn record_registration(&mut self, duration_ns: u64)
        ensures
            *final(self) == (RegistryMetrics {
                registration_count: wrapped_sum(old(self).registration_count, 1),
                registration_time_ns: wrapped_sum(old(self).registration_time_ns, duration_ns),
                ..*old(self)
            }),
    {
        self.registration_count = wrapping_sum(self.registration_count, 1);
        self.registration_time_ns = wrapping_sum(self.registration_time_ns, duration_ns);
    }

    /// Counts one lookup that took `duration_ns`.
    pub fn record_lookup(&mut self, duration_ns: u64)
        ensures
            *final(self) == (RegistryMetrics {
                lookup_count: wrapped_sum(old(self).lookup_count, 1),
                lookup_time_ns: wrapped_sum(old(self).lookup_time_ns, duration_ns),
                ..*old(self)
            }),
    {
        self.lookup_count = wrapping_sum(self.lookup_count, 1);
        self.lookup_time_ns = wrapping_sum(self.lookup_time_ns, duration_ns);
    }
}

/// The counters of the chosen registry.
pub fn get_current_metrics<'a>(
    use_cpp: bool,
    c_metrics: &'a RegistryMetrics,
    cpp_metrics: &'a RegistryMetrics,
) -> (metrics: &'a RegistryMetrics)
    ensures
        metrics == if use_cpp {
            cpp_metrics
        } else {
            c_metrics
        },
{
    if use_cpp {
        cpp_metrics
    } else {
        c_metrics
    }
}

} // verus!
