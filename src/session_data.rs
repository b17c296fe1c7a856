use vstd::prelude::*;
use crate::core_data::{CoreData, CoreHandle};
use crate::error::DebuggerError;

verus! {

/// How a core is to be debugged: its index on the target, the binary that holds its debug
/// information, and whether real-time transfer is serviced for it.
#[derive(Debug, Clone)]
pub struct CoreConfig {
    pub core_index: usize,
    pub program_binary: Option<String>,
    pub rtt_enabled: bool,
}

/// Which probe to open.
#[derive(PartialEq, Eq, Structural, Debug, Clone, Copy)]
pub enum ProbeChoice {
    /// The probe named by the configured selector.
    Selected,
    /// The one probe that is attached.
    OnlyAttached,
}

/// Decides which probe to open: the selected one when a selector is configured, else the sole
/// attached probe. Without a selector, none or several attached probes is an error.
pub fn resolve_probe(has_selector: bool, attached_probes: usize) -> (r: Result<
    ProbeChoice,
    DebuggerError,
>)
    ensures
        has_selector ==> r == Ok::<ProbeChoice, DebuggerError>(ProbeChoice::Selected),
        !has_selector && attached_probes > 1 ==> r == Err::<ProbeChoice, DebuggerError>(
            DebuggerError::AmbiguousProbe(attached_probes),
        ),
        !has_selector && attached_probes == 0 ==> r == Err::<ProbeChoice, DebuggerError>(
            DebuggerError::NoProbe,
        ),
        !has_selector && attached_probes == 1 ==> r == Ok::<ProbeChoice, DebuggerError>(
            ProbeChoice::OnlyAttached,
        ),
{
    if has_selector {
        Ok(ProbeChoice::Selected)
    } else if attached_probes > 1 {
        Err(DebuggerError::AmbiguousProbe(attached_probes))
    } else if attached_probes == 0 {
        Err(DebuggerError::NoProbe)
    } else {
        Ok(ProbeChoice::OnlyAttached)
    }
}

fn contains_index(indices: &Vec<usize>, index: usize) -> (r: bool)
    ensures
        r == indices@.contains(index),
{
    let mut i: usize = 0;
    while i < indices.len()
        invariant
            i <= indices@.len(),
            forall|k: int| 0 <= k < i ==> indices@[k] != index,
        decreases indices@.len() - i,
    {
        if indices[i] == index {
            return true;
        }
        i += 1;
    }
    false
}

/// Keeps the configured cores that exist on the target (`target_cores` lists the target's
/// core indices); others are dropped silently. Exactly one core must be configured, and a
/// kept core must name its binary.
pub fn select_core_configs(configs: Vec<CoreConfig>, target_cores: &Vec<usize>) -> (r: Result<
    Vec<CoreConfig>,
    DebuggerError,
>)
    ensures
        configs@.len() != 1 ==> r == Err::<Vec<CoreConfig>, DebuggerError>(
            DebuggerError::InvalidCoreConfiguration(configs@.len() as usize),
        ),
        configs@.len() == 1 && !target_cores@.contains(configs@[0].core_index) ==> (r matches Ok(v) && v@.len()
            == 0),
        configs@.len() == 1 && target_cores@.contains(configs@[0].core_index)
            && configs@[0].program_binary.is_none() ==> r == Err::<Vec<CoreConfig>, DebuggerError>(
            DebuggerError::MissingOrInvalidDebugInfo(configs@[0].core_index),
        ),
        configs@.len() == 1 && target_cores@.contains(configs@[0].core_index)
            && configs@[0].program_binary.is_some() ==> (r matches Ok(v) && v@ == seq![configs@[0]]),
{
    let n = configs.len();
    if n != 1 {
        return Err(DebuggerError::InvalidCoreConfiguration(n));
    }
    let mut configs = configs;
    match configs.pop() {
        Some(config) => {
            if !contains_index(target_cores, config.core_index) {
                Ok(Vec::new())
            } else if config.program_binary.is_none() {
                Err(DebuggerError::MissingOrInvalidDebugInfo(config.core_index))
            } else {
                let mut kept: Vec<CoreConfig> = Vec::new();
                kept.push(config);
                assert(kept@ =~= seq![config]);
                Ok(kept)
            }
        },
        None => Ok(Vec::new()),
    }
}

/// The decimal digits of `n`, most significant first.
pub open spec fn decimal_text(n: nat) -> Seq<char>
    decreases n,
{
    let digit = seq!['0', '1', '2', '3', '4', '5', '6', '7', '8', '9'][(n % 10) as int];
    if n < 10 {
        seq![digit]
    } else {
        decimal_text(n / 10).push(digit)
    }
}

/// The display label of a core: its index, a dash, and the target's name.
pub open spec fn core_label(core_index: usize, target_name: Seq<char>) -> Seq<char> {
    decimal_text(core_index as nat) + seq!['-'] + target_name
}

/// Relies on std's `format!`, which writes an unsigned integer in decimal digits.
#[verifier::external_body]
fn format_core_label(core_index: usize, target_name: &String) -> (r: String)
    ensures
        r@ == core_label(core_index, target_name@),
{
    format!("{}-{}", core_index, target_name)
}

/// The slot `k` holds the first cached core with index `core_index`.
pub open spec fn first_slot_of<D, P, F, R>(
    cores: Seq<Option<CoreData<D, P, F, R>>>,
    core_index: usize,
    k: int,
) -> bool {
    &&& 0 <= k < cores.len()
    &&& cores[k] matches Some(c) && c.core_index == core_index
    &&& forall|j: int| 0 <= j < k ==> (#[trigger] cores[j] matches Some(c) ==> c.core_index != core_index)
}

/// Some slot holds a cached core with index `core_index`.
pub open spec fn holds_core<D, P, F, R>(
    cores: Seq<Option<CoreData<D, P, F, R>>>,
    core_index: usize,
) -> bool {
    exists|k: int| 0 <= k < cores.len() && (#[trigger] cores[k] matches Some(c) && c.core_index == core_index)
}

/// `c` is the freshly loaded state of the configured core: its index, its label, its debug
/// information, and empty caches.
pub open spec fn fresh_core<D, P, F, R>(
    c: Option<CoreData<D, P, F, R>>,
    config: CoreConfig,
    target_name: Seq<char>,
    debug_info: D,
) -> bool {
    c matches Some(d) && d.core_index == config.core_index && d.target_name@ == core_label(
        config.core_index,
        target_name,
    ) && d.debug_info == debug_info && d.core_peripherals.is_none() && d.stack_frames@.len() == 0
        && d.breakpoints@.len() == 0 && d.rtt_connection.is_none()
}

/// The probe session and the cached state of each debugged core. The state of at most one
/// core is checked out at a time, as a `CoreHandle`; its slot stays empty until the handle
/// is handed back.
pub struct SessionData<S, D, P, F, R> {
    pub session: S,
    pub core_data: Vec<Option<CoreData<D, P, F, R>>>,
    pub checked_out: Option<usize>,
}

impl<S, D, P, F, R> SessionData<S, D, P, F, R> {
    /// Exactly the checked-out slot, if any, is empty.
    pub open spec fn wf(&self) -> bool {
        &&& self.checked_out matches Some(k) ==> k < self.core_data@.len()
        &&& forall|j: int|
            0 <= j < self.core_data@.len() ==> (self.core_data@[j].is_none() <==> (
                self.checked_out.is_some() && self.checked_out.unwrap() as int == j))
    }

    /// A session over the cores in `core_configs`, in their order, each with the debug
    /// information at the same position of `debug_infos`, labelled with its index and the
    /// target's name, and with empty caches.
    pub fn new(
        session: S,
        target_name: &String,
        core_configs: &Vec<CoreConfig>,
        debug_infos: Vec<D>,
    ) -> (r: Self)
        requires
            core_configs@.len() == debug_infos@.len(),
        ensures
            r.wf(),
            r.session == session,
            r.checked_out.is_none(),
            r.core_data@.len() == core_configs@.len(),
            forall|i: int|
                #![trigger r.core_data@[i]]
                0 <= i < core_configs@.len() ==> fresh_core(
                    r.core_data@[i],
                    core_configs@[i],
                    target_name@,
                    debug_infos@[i],
                ),
    {
        let mut infos = debug_infos;
        let mut reversed: Vec<Option<CoreData<D, P, F, R>>> = Vec::new();
        let n = core_configs.len();
        let ghost all_infos = infos@;
        while infos.len() > 0
            invariant
                n == core_configs@.len(),
                infos@.len() + reversed@.len() == n,
                infos@ == all_infos.take(infos@.len() as int),
                all_infos.len() == n,
                forall|k: int|
                    #![trigger reversed@[k]]
                    0 <= k < reversed@.len() ==> fresh_core(
                        reversed@[k],
                        core_configs@[n - 1 - k],
                        target_name@,
                        all_infos[n - 1 - k],
                    ),
            decreases infos@.len(),
        {
            let i = infos.len() - 1;
            let info = infos.pop().unwrap();
            assert(infos@ =~= all_infos.take(infos@.len() as int));
            let index = core_configs[i].core_index;
            let label = format_core_label(index, target_name);
            reversed.push(Some(CoreData::new(index, label, info)));
        }
        let mut cores: Vec<Option<CoreData<D, P, F, R>>> = Vec::new();
        while reversed.len() > 0
            invariant
                n == core_configs@.len(),
                all_infos.len() == n,
                cores@.len() + reversed@.len() == n,
                forall|k: int|
                    #![trigger reversed@[k]]
                    0 <= k < reversed@.len() ==> fresh_core(
                        reversed@[k],
                        core_configs@[n - 1 - k],
                        target_name@,
                        all_infos[n - 1 - k],
                    ),
                forall|i: int|
                    #![trigger cores@[i]]
                    0 <= i < cores@.len() ==> fresh_core(
                        cores@[i],
                        core_configs@[i],
                        target_name@,
                        all_infos[i],
                    ),
            decreases reversed@.len(),
        {
            let core = reversed.pop().unwrap();
            cores.push(core);
        }
        SessionData { session, core_data: cores, checked_out: None }
    }

    /// Checks out the state of the core with index `core_index`; `core_live` tells whether the
    /// hardware has a core at that index. While another handle is out, every request is
    /// refused. A missing live core or cached state is `CoreNotFound`.
    pub fn attach_core(&mut self, core_index: usize, core_live: bool) -> (r: Result<
        CoreHandle<D, P, F, R>,
        DebuggerError,
    >)
        requires
            old(self).wf(),
        ensures
            final(self).wf(),
            final(self).session == old(self).session,
            old(self).checked_out.is_some() ==> (r matches Err(e) && e == DebuggerError::CoreInUse(
                core_index,
            ) && *final(self) == *old(self)),
            old(self).checked_out.is_none() && !(core_live && holds_core(
                old(self).core_data@,
                core_index,
            )) ==> (r matches Err(e) && e == DebuggerError::CoreNotFound(core_index)
                && *final(self) == *old(self)),
            old(self).checked_out.is_none() && core_live && holds_core(
                old(self).core_data@,
                core_index,
            ) ==> (r matches Ok(h) && first_slot_of(old(self).core_data@, core_index, h.slot as int)
                && old(self).core_data@[h.slot as int] == Some(h.core_data)
                && final(self).core_data@ == old(self).core_data@.update(h.slot as int, None)
                && final(self).checked_out == Some(h.slot)),
    {
        if self.checked_out.is_some() {
            return Err(DebuggerError::CoreInUse(core_index));
        }
        let n = self.core_data.len();
        let mut k: usize = 0;
        while k < n
            invariant
                n == self.core_data@.len(),
                k <= n,
                self.wf(),
                self.checked_out.is_none(),
                *self == *old(self),
                forall|j: int|
                    0 <= j < k ==> (#[trigger] self.core_data@[j] matches Some(c) ==> c.core_index
                        != core_index),
            decreases n - k,
        {
            let found = match &self.core_data[k] {
                Some(c) => c.core_index == core_index,
                None => false,
            };
            if found {
                if !core_live {
                    return Err(DebuggerError::CoreNotFound(core_index));
                }
                let mut slot: Option<CoreData<D, P, F, R>> = None;
                std::mem::swap(&mut slot, &mut self.core_data[k]);
                self.checked_out = Some(k);
                match slot {
                    Some(core_data) => {
                        return Ok(CoreHandle { core_data, slot: k });
                    },
                    None => {
                        return Err(DebuggerError::CoreNotFound(core_index));
                    },
                }
            }
            k += 1;
        }
        Err(DebuggerError::CoreNotFound(core_index))
    }

    /// Hands a checked-out core's state back into its slot. A handle that is not the one
    /// checked out is refused, and the session is left as it was.
    pub fn release_core(&mut self, handle: CoreHandle<D, P, F, R>) -> (r: Result<(), DebuggerError>)
        requires
            old(self).wf(),
        ensures
            final(self).wf(),
            final(self).session == old(self).session,
            old(self).checked_out == Some(handle.slot) ==> r is Ok && final(self).checked_out.is_none()
                && final(self).core_data@ == old(self).core_data@.update(
                handle.slot as int,
                Some(handle.core_data),
            ),
            old(self).checked_out != Some(handle.slot) ==> r == Err::<(), DebuggerError>(
                DebuggerError::CoreNotFound(handle.core_data.core_index),
            ) && *final(self) == *old(self),
    {
        match self.checked_out {
            Some(k) => {
                if k == handle.slot {
                    let ghost before = self.core_data@;
                    let ghost returned = Some(handle.core_data);
                    let mut slot = Some(handle.core_data);
                    std::mem::swap(&mut slot, &mut self.core_data[k]);
                    assert(self.core_data@ == before.update(k as int, returned));
                    self.checked_out = None;
                    assert forall|j: int| 0 <= j < self.core_data@.len() implies #[trigger] self.core_data@[j].is_some() by {
                        if j != k {
                            assert(!before[j].is_none());
                            assert(self.core_data@[j] == before[j]);
                        }
                    }
                    Ok(())
                } else {
                    Err(DebuggerError::CoreNotFound(handle.core_data.core_index))
                }
            },
            None => Err(DebuggerError::CoreNotFound(handle.core_data.core_index)),
        }
    }
}

} // verus!
