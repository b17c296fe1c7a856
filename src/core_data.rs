use vstd::prelude::*;
use crate::breakpoints::{
    addresses_of_kind, clear_each, lemma_remove_first_at_absent, lemma_remove_first_at_index,
    ledger_of, remove_first_at, ActiveBreakpoint, BreakpointType, Ledger,
};
use crate::error::DebuggerError;

verus! {

/// A cached call frame: its identifier, and the frame as the stack walk produced it.
pub struct StackFrame<F> {
    pub id: i64,
    pub frame: F,
}

/// How a real-time transfer channel encodes its data.
#[derive(PartialEq, Eq, Structural, Debug, Clone, Copy)]
pub enum DataFormat {
    String,
    BinaryLE,
    Defmt,
}

/// What a target-to-host channel does when its buffer is full.
#[derive(PartialEq, Eq, Structural, Debug, Clone, Copy)]
pub enum ChannelMode {
    NoBlockSkip,
    NoBlockTrim,
    BlockIfFull,
}

/// A channel found by discovery: its name, its configured format, and the number of its
/// target-to-host half, if it has one.
#[derive(Debug, Clone)]
pub struct RttChannelInfo {
    pub channel_name: String,
    pub data_format: DataFormat,
    pub up_channel: Option<usize>,
}

/// What to do with one discovered target-to-host channel: the mode to force on it, if any,
/// and the announcement to make to the client.
#[derive(Debug, Clone)]
pub struct RttChannelSetup {
    pub channel_number: usize,
    pub channel_name: String,
    pub data_format: DataFormat,
    pub mode: Option<ChannelMode>,
}

/// The debugger's record of one target-to-host channel.
#[derive(PartialEq, Eq, Structural, Debug, Clone, Copy)]
pub struct DebuggerRttChannel {
    pub channel_number: usize,
    pub has_client_window: bool,
}

/// An established real-time transfer bridge: the discovered channel set and the debugger's
/// record of each target-to-host channel.
pub struct RttConnection<R> {
    pub target_rtt: R,
    pub debugger_rtt_channels: Vec<DebuggerRttChannel>,
}

impl<R> RttConnection<R> {
    /// Records the client's acknowledgement that it opened a window for channel
    /// `channel_number`; tells whether the bridge has such a channel.
    pub fn client_window_opened(&mut self, channel_number: usize) -> (r: bool)
        ensures
            final(self).target_rtt == old(self).target_rtt,
            final(self).debugger_rtt_channels@.len() == old(self).debugger_rtt_channels@.len(),
            forall|i: int|
                #![trigger old(self).debugger_rtt_channels@[i]]
                0 <= i < old(self).debugger_rtt_channels@.len() ==> final(self).debugger_rtt_channels@[i]
                    == (DebuggerRttChannel {
                    channel_number: old(self).debugger_rtt_channels@[i].channel_number,
                    has_client_window: old(self).debugger_rtt_channels@[i].has_client_window
                        || old(self).debugger_rtt_channels@[i].channel_number == channel_number,
                }),
            r == exists|i: int|
                0 <= i < old(self).debugger_rtt_channels@.len()
                    && #[trigger] old(self).debugger_rtt_channels@[i].channel_number == channel_number,
    {
        let ghost start = self.debugger_rtt_channels@;
        let mut found = false;
        let mut i: usize = 0;
        while i < self.debugger_rtt_channels.len()
            invariant
                self.target_rtt == old(self).target_rtt,
                self.debugger_rtt_channels@.len() == start.len(),
                start == old(self).debugger_rtt_channels@,
                i <= start.len(),
                forall|k: int|
                    0 <= k < start.len() ==> #[trigger] self.debugger_rtt_channels@[k] == if k < i {
                        DebuggerRttChannel {
                            channel_number: start[k].channel_number,
                            has_client_window: start[k].has_client_window || start[k].channel_number
                                == channel_number,
                        }
                    } else {
                        start[k]
                    },
                found == exists|k: int| 0 <= k < i && #[trigger] start[k].channel_number == channel_number,
            decreases start.len() - i,
        {
            let c = self.debugger_rtt_channels[i];
            if c.channel_number == channel_number {
                self.debugger_rtt_channels.set(
                    i,
                    DebuggerRttChannel { channel_number: c.channel_number, has_client_window: true },
                );
                found = true;
            }
            i += 1;
        }
        found
    }
}

/// The mode a channel of this format is forced into; `None` keeps the channel's default.
pub open spec fn forced_mode(format: DataFormat) -> Option<ChannelMode> {
    if format == DataFormat::Defmt {
        Some(ChannelMode::BlockIfFull)
    } else {
        None
    }
}

/// A setup as (number, name, format, forced mode).
pub open spec fn setup_view(s: RttChannelSetup) -> (usize, Seq<char>, DataFormat, Option<ChannelMode>) {
    (s.channel_number, s.channel_name@, s.data_format, s.mode)
}

/// The setups owed for the discovered channels: one per channel with a target-to-host
/// half, in discovery order.
pub open spec fn planned_setups(channels: Seq<RttChannelInfo>) -> Seq<
    (usize, Seq<char>, DataFormat, Option<ChannelMode>),
>
    decreases channels.len(),
{
    if channels.len() == 0 {
        Seq::empty()
    } else {
        let c = channels[0];
        let rest = planned_setups(channels.drop_first());
        match c.up_channel {
            Some(n) => seq![(n, c.channel_name@, c.data_format, forced_mode(c.data_format))]
                + rest,
            None => rest,
        }
    }
}

/// Plans the set-up of discovered channels. A structured-format (defmt) channel is forced to
/// block when full, since partial frames would corrupt it; other formats keep their default
/// mode. Channels without a target-to-host half are passed over.
pub fn rtt_channel_setups(channels: &Vec<RttChannelInfo>) -> (r: Vec<RttChannelSetup>)
    ensures
        r@.map_values(|s: RttChannelSetup| setup_view(s)) == planned_setups(channels@),
        forall|i: int|
            0 <= i < r.len() ==> (r[i].data_format == DataFormat::Defmt ==> r[i].mode == Some(
                ChannelMode::BlockIfFull,
            )) && (r[i].data_format != DataFormat::Defmt ==> r[i].mode.is_none()),
{
    let mut r: Vec<RttChannelSetup> = Vec::new();
    let mut i: usize = 0;
    assert(channels@.skip(0) =~= channels@);
    assert(r@.map_values(|s: RttChannelSetup| setup_view(s)) + planned_setups(channels@)
        =~= planned_setups(channels@));
    while i < channels.len()
        invariant
            i <= channels.len(),
            r@.map_values(|s: RttChannelSetup| setup_view(s)) + planned_setups(channels@.skip(i as int))
                == planned_setups(channels@),
            forall|k: int| 0 <= k < r.len() ==> r[k].mode == forced_mode(r[k].data_format),
        decreases channels.len() - i,
    {
        let c = &channels[i];
        let ghost before = r@;
        assert(channels@.skip(i as int).drop_first() =~= channels@.skip(i as int + 1));
        assert(channels@.skip(i as int)[0] == channels@[i as int]);
        match c.up_channel {
            Some(n) => {
                let mode = if c.data_format == DataFormat::Defmt {
                    Some(ChannelMode::BlockIfFull)
                } else {
                    None
                };
                r.push(
                    RttChannelSetup {
                        channel_number: n,
                        channel_name: c.channel_name.clone(),
                        data_format: c.data_format,
                        mode,
                    },
                );
                assert(r@.map_values(|s: RttChannelSetup| setup_view(s)) =~= before.map_values(
                    |s: RttChannelSetup| setup_view(s),
                ).push(setup_view(r@[r@.len() - 1])));
                assert(r@.map_values(|s: RttChannelSetup| setup_view(s)) + planned_setups(
                    channels@.skip(i as int + 1),
                ) =~= before.map_values(|s: RttChannelSetup| setup_view(s)) + planned_setups(
                    channels@.skip(i as int),
                ));
            },
            None => {},
        }
        i += 1;
    }
    assert(channels@.skip(i as int) =~= Seq::<RttChannelInfo>::empty());
    assert(r@.map_values(|s: RttChannelSetup| setup_view(s)) + Seq::empty() =~= r@.map_values(
        |s: RttChannelSetup| setup_view(s),
    ));
    r
}

/// Data cached by the debugger for one core, for the lifetime of the session.
pub struct CoreData<D, P, F, R> {
    pub core_index: usize,
    pub target_name: String,
    pub debug_info: D,
    pub core_peripherals: Option<P>,
    pub stack_frames: Vec<StackFrame<F>>,
    pub breakpoints: Vec<ActiveBreakpoint>,
    pub rtt_connection: Option<RttConnection<R>>,
}

impl<D, P, F, R> CoreData<D, P, F, R> {
    /// The breakpoint ledger, in insertion order.
    pub open spec fn ledger(&self) -> Ledger {
        ledger_of(self.breakpoints@)
    }

    /// A freshly loaded core: no cached frames, no breakpoints, no bridge.
    pub fn new(core_index: usize, target_name: String, debug_info: D) -> (r: Self)
        ensures
            r.core_index == core_index,
            r.target_name == target_name,
            r.debug_info == debug_info,
            r.core_peripherals.is_none(),
            r.stack_frames@.len() == 0,
            r.breakpoints@.len() == 0,
            r.rtt_connection.is_none(),
    {
        CoreData {
            core_index,
            target_name,
            debug_info,
            core_peripherals: None,
            stack_frames: Vec::new(),
            breakpoints: Vec::new(),
            rtt_connection: None,
        }
    }

    /// The earliest cached frame with identifier `id`, if any.
    pub fn get_stackframe(&self, id: i64) -> (r: Option<&StackFrame<F>>)
        ensures
            r.is_none() <==> forall|i: int|
                0 <= i < self.stack_frames@.len() ==> self.stack_frames@[i].id != id,
            r matches Some(f) ==> exists|i: int|
                0 <= i < self.stack_frames@.len() && self.stack_frames@[i] == *f && f.id == id
                    && forall|k: int| 0 <= k < i ==> self.stack_frames@[k].id != id,
    {
        let mut i: usize = 0;
        while i < self.stack_frames.len()
            invariant
                i <= self.stack_frames@.len(),
                forall|k: int| 0 <= k < i ==> self.stack_frames@[k].id != id,
            decreases self.stack_frames@.len() - i,
        {
            if self.stack_frames[i].id == id {
                return Some(&self.stack_frames[i]);
            }
            i += 1;
        }
        None
    }

    /// The addresses of the ledger's breakpoints of the given type, in ledger order.
    pub fn breakpoint_addresses(&self, breakpoint_type: &BreakpointType) -> (r: Vec<u64>)
        ensures
            r@ == addresses_of_kind(self.ledger(), breakpoint_type@),
    {
        let mut r: Vec<u64> = Vec::new();
        let mut i: usize = 0;
        assert(self.ledger().skip(0) =~= self.ledger());
        assert(r@ + addresses_of_kind(self.ledger(), breakpoint_type@) =~= addresses_of_kind(
            self.ledger(),
            breakpoint_type@,
        ));
        while i < self.breakpoints.len()
            invariant
                i <= self.breakpoints@.len(),
                r@ + addresses_of_kind(self.ledger().skip(i as int), breakpoint_type@)
                    == addresses_of_kind(self.ledger(), breakpoint_type@),
            decreases self.breakpoints@.len() - i,
        {
            let ghost before = r@;
            let ghost rest = self.ledger().skip(i as int);
            assert(rest.drop_first() =~= self.ledger().skip(i as int + 1));
            assert(rest[0] == self.breakpoints@[i as int]@);
            if self.breakpoints[i].breakpoint_type == *breakpoint_type {
                r.push(self.breakpoints[i].breakpoint_address);
                assert(r@ + addresses_of_kind(self.ledger().skip(i as int + 1), breakpoint_type@)
                    =~= before + addresses_of_kind(rest, breakpoint_type@));
            }
            i += 1;
        }
        assert(self.ledger().skip(i as int) =~= Seq::<(crate::breakpoints::BreakpointKind, u64)>::empty());
        assert(r@ + Seq::empty() =~= r@);
        r
    }
}

/// Exclusive access to one core's cached state, checked out of a session by
/// `SessionData::attach_core` and handed back with `SessionData::release_core`. The hardware
/// operations that go with each method are performed by the caller, who passes their outcome.
pub struct CoreHandle<D, P, F, R> {
    pub core_data: CoreData<D, P, F, R>,
    /// The session slot the state was checked out of.
    pub slot: usize,
}

impl<D, P, F, R> CoreHandle<D, P, F, R> {
    /// Everything but the breakpoint ledger is the same in `a` and `b`.
    pub open spec fn same_but_ledger(a: CoreData<D, P, F, R>, b: CoreData<D, P, F, R>) -> bool {
        &&& a.core_index == b.core_index
        &&& a.target_name == b.target_name
        &&& a.debug_info == b.debug_info
        &&& a.core_peripherals == b.core_peripherals
        &&& a.stack_frames == b.stack_frames
        &&& a.rtt_connection == b.rtt_connection
    }

    /// The earliest cached frame with identifier `id`, if any.
    pub fn get_stackframe(&self, id: i64) -> (r: Option<&StackFrame<F>>)
        ensures
            r.is_none() <==> forall|i: int|
                0 <= i < self.core_data.stack_frames@.len() ==> self.core_data.stack_frames@[i].id
                    != id,
            r matches Some(f) ==> exists|i: int|
                0 <= i < self.core_data.stack_frames@.len() && self.core_data.stack_frames@[i]
                    == *f && f.id == id && forall|k: int|
                    0 <= k < i ==> self.core_data.stack_frames@[k].id != id,
    {
        self.core_data.get_stackframe(id)
    }

    /// Records a breakpoint once the hardware has accepted it at `address`. When the hardware
    /// refused it, the ledger is left as it was and the failure is returned.
    pub fn set_breakpoint(
        &mut self,
        address: u64,
        breakpoint_type: BreakpointType,
        hardware_set: bool,
    ) -> (r: Result<(), DebuggerError>)
        ensures
            Self::same_but_ledger(final(self).core_data, old(self).core_data),
            final(self).slot == old(self).slot,
            hardware_set ==> r is Ok && final(self).core_data.ledger() == old(
                self,
            ).core_data.ledger().push((breakpoint_type@, address)),
            !hardware_set ==> r == Err::<(), DebuggerError>(
                DebuggerError::BreakpointHardwareFailure(address),
            ) && final(self).core_data.ledger() == old(self).core_data.ledger(),
    {
        if !hardware_set {
            return Err(DebuggerError::BreakpointHardwareFailure(address));
        }
        let ghost before = self.core_data.breakpoints@;
        self.core_data.breakpoints.push(
            ActiveBreakpoint { breakpoint_type, breakpoint_address: address },
        );
        assert(ledger_of(self.core_data.breakpoints@) =~= ledger_of(before).push(
            (breakpoint_type@, address),
        ));
        Ok(())
    }

    /// Drops the earliest ledger record at `address` once the hardware has cleared its
    /// breakpoint there; other records at that address stay. A ledger without such a record
    /// is left as it is, and the call still succeeds. When the hardware refused, the ledger is
    /// left as it was and the failure is returned.
    pub fn clear_breakpoint(&mut self, address: u64, hardware_cleared: bool) -> (r: Result<
        (),
        DebuggerError,
    >)
        ensures
            Self::same_but_ledger(final(self).core_data, old(self).core_data),
            final(self).slot == old(self).slot,
            hardware_cleared ==> r is Ok && final(self).core_data.ledger() == remove_first_at(
                old(self).core_data.ledger(),
                address,
            ),
            !hardware_cleared ==> r == Err::<(), DebuggerError>(
                DebuggerError::BreakpointHardwareFailure(address),
            ) && final(self).core_data.ledger() == old(self).core_data.ledger(),
    {
        if !hardware_cleared {
            return Err(DebuggerError::BreakpointHardwareFailure(address));
        }
        let ghost l = self.core_data.ledger();
        let n = self.core_data.breakpoints.len();
        let mut i: usize = 0;
        while i < n && self.core_data.breakpoints[i].breakpoint_address != address
            invariant
                n == self.core_data.breakpoints@.len(),
                l == self.core_data.ledger(),
                i <= n,
                forall|k: int| 0 <= k < i ==> l[k].1 != address,
            decreases n - i,
        {
            i += 1;
        }
        if i < n {
            proof {
                lemma_remove_first_at_index(l, address, i as int);
            }
            self.core_data.breakpoints.remove(i);
            assert(ledger_of(self.core_data.breakpoints@) =~= l.remove(i as int));
        } else {
            proof {
                lemma_remove_first_at_absent(l, address);
            }
        }
        Ok(())
    }

    /// Best-effort clearing: clears the given addresses one after another, each as
    /// `clear_breakpoint` does, where `hardware_cleared` tells whether the hardware cleared
    /// it. A refused address is passed over and the rest are still cleared.
    pub fn clear_breakpoints(&mut self, addresses: &Vec<u64>, hardware_cleared: &Vec<bool>)
        requires
            addresses.len() == hardware_cleared.len(),
        ensures
            Self::same_but_ledger(final(self).core_data, old(self).core_data),
            final(self).slot == old(self).slot,
            final(self).core_data.ledger() == clear_each(
                old(self).core_data.ledger(),
                addresses@,
                hardware_cleared@,
            ),
    {
        let ghost start = self.core_data.ledger();
        let mut j: usize = 0;
        assert(addresses@.skip(0) =~= addresses@);
        assert(hardware_cleared@.skip(0) =~= hardware_cleared@);
        while j < addresses.len()
            invariant
                addresses.len() == hardware_cleared.len(),
                j <= addresses.len(),
                Self::same_but_ledger(self.core_data, old(self).core_data),
                self.slot == old(self).slot,
                clear_each(
                    self.core_data.ledger(),
                    addresses@.skip(j as int),
                    hardware_cleared@.skip(j as int),
                ) == clear_each(start, addresses@, hardware_cleared@),
            decreases addresses.len() - j,
        {
            assert(addresses@.skip(j as int).drop_first() =~= addresses@.skip(j as int + 1));
            assert(hardware_cleared@.skip(j as int).drop_first() =~= hardware_cleared@.skip(
                j as int + 1,
            ));
            let _ = self.clear_breakpoint(addresses[j], hardware_cleared[j]);
            j += 1;
        }
    }

    /// Installs the bridge for channels that discovery found and that were set up as
    /// `setups` says: one record per channel, in order, with no client window yet.
    pub fn attach_to_rtt(&mut self, target_rtt: R, setups: &Vec<RttChannelSetup>)
        ensures
            final(self).slot == old(self).slot,
            final(self).core_data.core_index == old(self).core_data.core_index,
            final(self).core_data.target_name == old(self).core_data.target_name,
            final(self).core_data.debug_info == old(self).core_data.debug_info,
            final(self).core_data.core_peripherals == old(self).core_data.core_peripherals,
            final(self).core_data.stack_frames == old(self).core_data.stack_frames,
            final(self).core_data.breakpoints == old(self).core_data.breakpoints,
            final(self).core_data.rtt_connection matches Some(c) && c.target_rtt == target_rtt
                && c.debugger_rtt_channels@.len() == setups@.len() && forall|i: int|
                0 <= i < setups@.len() ==> c.debugger_rtt_channels@[i] == (DebuggerRttChannel {
                    channel_number: setups@[i].channel_number,
                    has_client_window: false,
                }),
    {
        let mut channels: Vec<DebuggerRttChannel> = Vec::new();
        let mut i: usize = 0;
        while i < setups.len()
            invariant
                i <= setups@.len(),
                channels@.len() == i,
                forall|k: int|
                    0 <= k < i ==> channels@[k] == (DebuggerRttChannel {
                        channel_number: setups@[k].channel_number,
                        has_client_window: false,
                    }),
            decreases setups@.len() - i,
        {
            channels.push(
                DebuggerRttChannel { channel_number: setups[i].channel_number, has_client_window: false },
            );
            i += 1;
        }
        self.core_data.rtt_connection = Some(
            RttConnection { target_rtt, debugger_rtt_channels: channels },
        );
    }
}

} // verus!
