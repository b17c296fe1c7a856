use vstd::prelude::*;

verus! {

/// What kind of breakpoint halted a core.
#[derive(PartialEq, Eq, Structural, Debug, Clone, Copy)]
pub enum BreakpointCause {
    Hardware,
    Software,
    Unknown,
}

/// Why a core halted.
#[derive(PartialEq, Eq, Structural, Debug, Clone, Copy)]
pub enum HaltReason {
    Multiple,
    Breakpoint(BreakpointCause),
    Exception,
    Watchpoint,
    Step,
    Request,
    External,
    Unknown,
}

/// The execution status of a core, as last read from the hardware.
#[derive(PartialEq, Eq, Structural, Debug, Clone, Copy)]
pub enum CoreStatus {
    Running,
    Halted(HaltReason),
    LockedUp,
    Sleeping,
    Unknown,
}

impl CoreStatus {
    /// Whether the core is halted, for any reason.
    pub fn is_halted(&self) -> (r: bool)
        ensures
            r == self is Halted,
    {
        match self {
            CoreStatus::Halted(_) => true,
            _ => false,
        }
    }
}

/// What to do about real-time transfer on one core during a poll pass.
#[derive(PartialEq, Eq, Structural, Debug, Clone, Copy)]
pub enum RttAction {
    /// Leave the channels alone.
    Idle,
    /// Read the established bridge's channels and forward their data.
    Pump,
    /// Try to discover the channels and establish a bridge.
    Attach,
}

/// Real-time transfer is serviced when it is enabled and the core is not halted, or has
/// just halted: a core that was halted already at the last poll cannot have new data.
pub open spec fn rtt_due(rtt_enabled: bool, new_status: CoreStatus, last_known: CoreStatus) -> bool {
    rtt_enabled && (!(new_status is Halted) || new_status != last_known)
}

/// The action owed on one core. Without a bridge, discovery is tried only once the client is
/// ready, that is once the last known status is no longer `Unknown`.
pub open spec fn rtt_action_for(
    rtt_enabled: bool,
    new_status: CoreStatus,
    last_known: CoreStatus,
    has_bridge: bool,
) -> RttAction {
    if !rtt_due(rtt_enabled, new_status, last_known) {
        RttAction::Idle
    } else if has_bridge {
        RttAction::Pump
    } else if last_known != CoreStatus::Unknown {
        RttAction::Attach
    } else {
        RttAction::Idle
    }
}

/// Decides what to do about real-time transfer on a core whose status was just read.
pub fn rtt_action(
    rtt_enabled: bool,
    new_status: CoreStatus,
    last_known: CoreStatus,
    has_bridge: bool,
) -> (r: RttAction)
    ensures
        r == rtt_action_for(rtt_enabled, new_status, last_known, has_bridge),
{
    if !(rtt_enabled && (!new_status.is_halted() || new_status != last_known)) {
        RttAction::Idle
    } else if has_bridge {
        RttAction::Pump
    } else if last_known != CoreStatus::Unknown {
        RttAction::Attach
    } else {
        RttAction::Idle
    }
}

/// The outcome for each visited core, in order: `None` for a core that could not be attached,
/// else its new status and whether its bridge produced data.
pub type Visits = Seq<Option<(CoreStatus, bool)>>;

/// The statuses of the polled cores, in order.
pub open spec fn statuses_of(visits: Visits) -> Seq<CoreStatus>
    decreases visits.len(),
{
    if visits.len() == 0 {
        Seq::empty()
    } else {
        let rest = statuses_of(visits.drop_last());
        match visits.last() {
            Some(v) => rest.push(v.0),
            None => rest,
        }
    }
}

/// Some polled core's status differs from the last known one.
pub open spec fn any_status_changed(visits: Visits, last_known: CoreStatus) -> bool {
    exists|i: int| 0 <= i < visits.len() && (#[trigger] visits[i] matches Some(v) && v.0 != last_known)
}

/// Some polled core's bridge produced data.
pub open spec fn any_rtt_data(visits: Visits) -> bool {
    exists|i: int| 0 <= i < visits.len() && (#[trigger] visits[i] matches Some(v) && v.1)
}

/// One pass of the polling loop over the configured cores, in configuration order. The
/// caller attaches to each core, reads its status, performs the `rtt_action`, and records
/// the outcome here; a failed status read ends the pass with that error.
pub struct PollPass {
    pub last_known_status: CoreStatus,
    pub core_indices: Vec<usize>,
    pub visited: usize,
    pub statuses: Vec<CoreStatus>,
    pub status_changed: bool,
    pub rtt_produced_data: bool,
    pub visits: Ghost<Visits>,
}

impl PollPass {
    pub open spec fn wf(&self) -> bool {
        &&& self.visited as int == self.visits@.len()
        &&& self.visited <= self.core_indices@.len()
        &&& self.statuses@ == statuses_of(self.visits@)
        &&& self.status_changed == any_status_changed(self.visits@, self.last_known_status)
        &&& self.rtt_produced_data == any_rtt_data(self.visits@)
    }

    /// A pass over the configured cores, given by index in configuration order, against the
    /// status recorded last time.
    pub fn new(last_known_status: CoreStatus, core_indices: Vec<usize>) -> (r: PollPass)
        ensures
            r.wf(),
            r.last_known_status == last_known_status,
            r.core_indices == core_indices,
            r.visits@.len() == 0,
    {
        PollPass {
            last_known_status,
            core_indices,
            visited: 0,
            statuses: Vec::new(),
            status_changed: false,
            rtt_produced_data: false,
            visits: Ghost(Seq::empty()),
        }
    }

    /// Whether every configured core has been visited.
    pub fn is_complete(&self) -> (r: bool)
        requires
            self.wf(),
        ensures
            r == (self.visits@.len() == self.core_indices@.len()),
    {
        self.visited == self.core_indices.len()
    }

    /// The index of the core to poll next, in configuration order; `None` once all were
    /// visited.
    pub fn next_core(&self) -> (r: Option<usize>)
        requires
            self.wf(),
        ensures
            self.visits@.len() < self.core_indices@.len() ==> r == Some(
                self.core_indices@[self.visits@.len() as int],
            ),
            self.visits@.len() == self.core_indices@.len() ==> r.is_none(),
    {
        if self.visited < self.core_indices.len() {
            Some(self.core_indices[self.visited])
        } else {
            None
        }
    }

    /// Records a core that could not be attached: it is skipped and gets no status.
    pub fn skip_core(&mut self)
        requires
            old(self).wf(),
            old(self).visits@.len() < old(self).core_indices@.len(),
        ensures
            final(self).wf(),
            final(self).last_known_status == old(self).last_known_status,
            final(self).core_indices == old(self).core_indices,
            final(self).visits@ == old(self).visits@.push(None),
    {
        let ghost v = self.visits@.push(None);
        assert(v.drop_last() =~= self.visits@);
        assert(any_status_changed(v, self.last_known_status) == any_status_changed(
            self.visits@,
            self.last_known_status,
        )) by {
            if any_status_changed(v, self.last_known_status) {
                let i = choose|i: int|
                    0 <= i < v.len() && (#[trigger] v[i] matches Some(x) && x.0
                        != self.last_known_status);
                assert(self.visits@[i] == v[i]);
            }
            if any_status_changed(self.visits@, self.last_known_status) {
                let i = choose|i: int|
                    0 <= i < self.visits@.len() && (#[trigger] self.visits@[i] matches Some(x) && x.0
                        != self.last_known_status);
                assert(self.visits@[i] == v[i]);
            }
        }
        assert(any_rtt_data(v) == any_rtt_data(self.visits@)) by {
            if any_rtt_data(v) {
                let i = choose|i: int| 0 <= i < v.len() && (#[trigger] v[i] matches Some(x) && x.1);
                assert(self.visits@[i] == v[i]);
            }
            if any_rtt_data(self.visits@) {
                let i = choose|i: int|
                    0 <= i < self.visits@.len() && (#[trigger] self.visits@[i] matches Some(x) && x.1);
                assert(self.visits@[i] == v[i]);
            }
        }
        self.visits = Ghost(v);
        let count = self.core_indices.len();
        assert(self.visited < count);
        self.visited = self.visited + 1;
    }

    /// Records the status just read from the next core and whether its bridge produced data.
    pub fn record_core(&mut self, new_status: CoreStatus, rtt_data_read: bool)
        requires
            old(self).wf(),
            old(self).visits@.len() < old(self).core_indices@.len(),
        ensures
            final(self).wf(),
            final(self).last_known_status == old(self).last_known_status,
            final(self).core_indices == old(self).core_indices,
            final(self).visits@ == old(self).visits@.push(Some((new_status, rtt_data_read))),
    {
        let ghost v = self.visits@.push(Some((new_status, rtt_data_read)));
        let ghost n = self.visits@.len() as int;
        assert(v.drop_last() =~= self.visits@);
        assert(v[n] == Some((new_status, rtt_data_read)));
        let changed = new_status != self.last_known_status;
        assert(any_status_changed(v, self.last_known_status) == (any_status_changed(
            self.visits@,
            self.last_known_status,
        ) || changed)) by {
            if any_status_changed(v, self.last_known_status) {
                let i = choose|i: int|
                    0 <= i < v.len() && (#[trigger] v[i] matches Some(x) && x.0
                        != self.last_known_status);
                if i < n {
                    assert(self.visits@[i] == v[i]);
                }
            }
            if any_status_changed(self.visits@, self.last_known_status) {
                let i = choose|i: int|
                    0 <= i < self.visits@.len() && (#[trigger] self.visits@[i] matches Some(x) && x.0
                        != self.last_known_status);
                assert(self.visits@[i] == v[i]);
            }
        }
        assert(any_rtt_data(v) == (any_rtt_data(self.visits@) || rtt_data_read)) by {
            if any_rtt_data(v) {
                let i = choose|i: int| 0 <= i < v.len() && (#[trigger] v[i] matches Some(x) && x.1);
                if i < n {
                    assert(self.visits@[i] == v[i]);
                }
            }
            if any_rtt_data(self.visits@) {
                let i = choose|i: int|
                    0 <= i < self.visits@.len() && (#[trigger] self.visits@[i] matches Some(x) && x.1);
                assert(self.visits@[i] == v[i]);
            }
        }
        self.statuses.push(new_status);
        self.status_changed = self.status_changed || changed;
        self.rtt_produced_data = self.rtt_produced_data || rtt_data_read;
        self.visits = Ghost(v);
        let count = self.core_indices.len();
        assert(self.visited < count);
        self.visited = self.visited + 1;
    }

    /// Whether the pass ends with the idle pause: only when no polled core's status changed
    /// and no bridge produced data. Any change or any data means polling again at once.
    pub fn needs_pause(&self) -> (r: bool)
        requires
            self.wf(),
        ensures
            r == !(any_status_changed(self.visits@, self.last_known_status) || any_rtt_data(
                self.visits@,
            )),
            r <==> forall|i: int|
                0 <= i < self.visits@.len() ==> (#[trigger] self.visits@[i] matches Some(v) ==> v.0
                    == self.last_known_status && !v.1),
    {
        !(self.status_changed || self.rtt_produced_data)
    }

    /// The statuses of the polled cores, in configuration order.
    pub fn into_statuses(self) -> (r: Vec<CoreStatus>)
        requires
            self.wf(),
        ensures
            r@ == statuses_of(self.visits@),
    {
        self.statuses
    }
}

/// When no core of a complete pass was skipped, the statuses line up one to one with the
/// configured cores: same number, same order.
pub proof fn lemma_statuses_match_cores(visits: Visits)
    requires
        forall|i: int| 0 <= i < visits.len() ==> (#[trigger] visits[i]).is_some(),
    ensures
        statuses_of(visits).len() == visits.len(),
        forall|i: int|
            0 <= i < visits.len() ==> #[trigger] statuses_of(visits)[i] == visits[i].unwrap().0,
    decreases visits.len(),
{
    if visits.len() > 0 {
        let front = visits.drop_last();
        assert forall|i: int| 0 <= i < front.len() implies (#[trigger] front[i]).is_some() by {
            assert(front[i] == visits[i]);
        }
        lemma_statuses_match_cores(front);
        assert(visits[visits.len() - 1].is_some());
        assert forall|i: int| 0 <= i < visits.len() implies #[trigger] statuses_of(visits)[i]
            == visits[i].unwrap().0 by {
            if i < visits.len() - 1 {
                assert(front[i] == visits[i]);
                assert(statuses_of(front)[i] == front[i].unwrap().0);
            }
        }
    }
}

} // verus!
