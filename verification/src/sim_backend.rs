//! Simulated backend servers with configurable latency behaviour, used
//! to exercise the balancing strategies without a network.

use vstd::prelude::*;

verus! {

/// Bound on the latency parameters of a simulated backend, so that
/// every latency computation stays within `u64`.
pub const SIM_FIELD_LIMIT: u64 = 1_000_000;

/// Why a simulated backend refuses a request.
#[derive(Debug, Clone, Copy, PartialEq, Eq, Structural)]
pub enum BackendError {
    /// The backend is at capacity.
    Overloaded,
}

/// A simulated backend: fixed latency parameters, a requests-in-flight
/// counter, and an adjustable antagonist load factor.
#[derive(Debug, Clone, Copy)]
pub struct SimulatedBackend {
    /// Identifier, equal to the backend's index in its pool.
    pub id: usize,
    /// Base processing time in milliseconds.
    pub base_latency_ms: u64,
    /// Additional latency per concurrent request (simulates queueing).
    pub latency_per_rif_ms: u64,
    /// Current requests in flight.
    pub current_rif: usize,
    /// Greatest number of concurrent requests before shedding load.
    pub capacity: usize,
    /// Antagonist load factor (0-100), an added percentage of latency.
    pub antagonist_load: u64,
}

impl SimulatedBackend {
    /// Parameters in range and the in-flight count within capacity.
    pub open spec fn wf(&self) -> bool {
        &&& self.base_latency_ms <= SIM_FIELD_LIMIT
        &&& self.latency_per_rif_ms <= SIM_FIELD_LIMIT
        &&& self.capacity <= SIM_FIELD_LIMIT as usize
        &&& self.current_rif <= self.capacity
        &&& self.antagonist_load <= 100
    }

    /// The latency a request would see now: the base, plus queueing per
    /// request in flight, plus the antagonist's percentage of the base.
    pub open spec fn est_latency_spec(&self) -> int {
        self.base_latency_ms + self.current_rif * self.latency_per_rif_ms + (self.base_latency_ms
            * self.antagonist_load) / 100
    }

    pub fn new(id: usize, base_latency_ms: u64, latency_per_rif_ms: u64, capacity: usize) -> (b:
        SimulatedBackend)
        requires
            base_latency_ms <= SIM_FIELD_LIMIT,
            latency_per_rif_ms <= SIM_FIELD_LIMIT,
            capacity <= SIM_FIELD_LIMIT as usize,
        ensures
            b == (SimulatedBackend {
                id,
                base_latency_ms,
                latency_per_rif_ms,
                current_rif: 0,
                capacity,
                antagonist_load: 0,
            }),
            b.wf(),
    {
        SimulatedBackend {
            id,
            base_latency_ms,
            latency_per_rif_ms,
            current_rif: 0,
            capacity,
            antagonist_load: 0,
        }
    }

    /// Current requests in flight.
    pub fn get_rif(&self) -> (r: usize)
        ensures
            r == self.current_rif,
    {
        self.current_rif
    }

    /// The latency estimate for the current load.
    pub fn get_estimated_latency(&self) -> (r: u64)
        requires
            self.wf(),
        ensures
            r == self.est_latency_spec(),
    {
        proof {
            assert(self.current_rif * self.latency_per_rif_ms <= SIM_FIELD_LIMIT
                * SIM_FIELD_LIMIT) by (nonlinear_arith)
                requires
                    self.current_rif <= SIM_FIELD_LIMIT,
                    self.latency_per_rif_ms <= SIM_FIELD_LIMIT,
            ;
            assert((self.base_latency_ms * self.antagonist_load) / 100 <= SIM_FIELD_LIMIT * 100
                / 100) by (nonlinear_arith)
                requires
                    self.base_latency_ms <= SIM_FIELD_LIMIT,
                    self.antagonist_load <= 100,
            ;
        }
        let queue: u64 = (self.current_rif as u64) * self.latency_per_rif_ms;
        let antagonist: u64 = (self.base_latency_ms * self.antagonist_load) / 100;
        self.base_latency_ms + queue + antagonist
    }

    /// Set the antagonist load factor, clamped to 100.
    pub fn set_antagonist_load(&mut self, load: u64)
        requires
            old(self).wf(),
        ensures
            *final(self) == (SimulatedBackend {
                antagonist_load: if load <= 100 {
                    load
                } else {
                    100
                },
                ..*old(self)
            }),
            final(self).wf(),
    {
        self.antagonist_load = if load <= 100 {
            load
        } else {
            100
        };
    }

    /// Admit one request: refuse when at capacity, else count it in
    /// flight and return the latency it will take, computed over the
    /// load as it stood on arrival.
    pub fn begin_request(&mut self) -> (r: Result<u64, BackendError>)
        requires
            old(self).wf(),
        ensures
            final(self).wf(),
            old(self).current_rif >= old(self).capacity ==> r == Result::<
                u64,
                BackendError,
            >::Err(BackendError::Overloaded) && *final(self) == *old(self),
            old(self).current_rif < old(self).capacity ==> r == Result::<
                u64,
                BackendError,
            >::Ok(old(self).est_latency_spec() as u64) && *final(self) == (SimulatedBackend {
                current_rif: (old(self).current_rif + 1) as usize,
                ..*old(self)
            }),
    {
        if self.current_rif >= self.capacity {
            return Err(BackendError::Overloaded);
        }
        let latency = self.get_estimated_latency();
        proof {
            assert(old(self).est_latency_spec() >= 0);
        }
        self.current_rif = self.current_rif + 1;
        Ok(latency)
    }

    /// Let one request go: the in-flight count drops by one.
    pub fn end_request(&mut self)
        requires
            old(self).wf(),
            old(self).current_rif > 0,
        ensures
            *final(self) == (SimulatedBackend {
                current_rif: (old(self).current_rif - 1) as usize,
                ..*old(self)
            }),
            final(self).wf(),
    {
        self.current_rif = self.current_rif - 1;
    }
}

/// A pool of simulated backends; a backend's `id` is its index.
#[derive(Debug)]
pub struct BackendPool {
    pub backends: Vec<SimulatedBackend>,
}

impl BackendPool {
    /// Every backend is well-formed.
    pub open spec fn wf(&self) -> bool {
        forall|i: int| 0 <= i < self.backends@.len() ==> (#[trigger] self.backends@[i]).wf()
    }

    /// A pool of `count` identical backends with two milliseconds of
    /// queueing latency per request in flight.
    #[verifier::loop_isolation(false)]
    pub fn uniform(count: usize, base_latency_ms: u64, capacity: usize) -> (p: BackendPool)
        requires
            base_latency_ms <= SIM_FIELD_LIMIT,
            capacity <= SIM_FIELD_LIMIT as usize,
        ensures
            p.wf(),
            p.backends@.len() == count,
            forall|i: int|
                0 <= i < count ==> (#[trigger] p.backends@[i]) == (SimulatedBackend {
                    id: i as usize,
                    base_latency_ms,
                    latency_per_rif_ms: 2,
                    current_rif: 0,
                    capacity,
                    antagonist_load: 0,
                }),
    {
        let mut backends: Vec<SimulatedBackend> = Vec::new();
        let mut id: usize = 0;
        while id < count
            invariant
                0 <= id <= count,
                backends@.len() == id,
                forall|i: int|
                    0 <= i < id ==> (#[trigger] backends@[i]) == (SimulatedBackend {
                        id: i as usize,
                        base_latency_ms,
                        latency_per_rif_ms: 2,
                        current_rif: 0,
                        capacity,
                        antagonist_load: 0,
                    }),
            decreases count - id,
        {
            backends.push(SimulatedBackend::new(id, base_latency_ms, 2, capacity));
            id = id + 1;
        }
        BackendPool { backends }
    }

    /// How many backends the pool holds.
    pub fn len(&self) -> (n: usize)
        ensures
            n == self.backends@.len(),
    {
        self.backends.len()
    }

    /// A copy of the backend at an index, if the index is in range.
    pub fn get(&self, id: usize) -> (r: Option<SimulatedBackend>)
        ensures
            r == (if id < self.backends@.len() {
                Option::Some(self.backends@[id as int])
            } else {
                Option::<SimulatedBackend>::None
            }),
    {
        if id < self.backends.len() {
            Some(self.backends[id])
        } else {
            None
        }
    }
}

} // verus!
