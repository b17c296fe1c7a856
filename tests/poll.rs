use debugger_session::core_data::{rtt_channel_setups, ChannelMode, CoreData, CoreHandle, DataFormat, RttChannelInfo};
use debugger_session::poll::{rtt_action, BreakpointCause, CoreStatus, HaltReason, PollPass, RttAction};

const HALTED: CoreStatus = CoreStatus::Halted(HaltReason::Breakpoint(BreakpointCause::Hardware));

#[test]
fn running_core_is_pumped_every_pass() {
    assert_eq!(rtt_action(true, CoreStatus::Running, CoreStatus::Running, true), RttAction::Pump);
}

#[test]
fn core_that_just_halted_is_drained_once() {
    assert_eq!(rtt_action(true, HALTED, CoreStatus::Running, true), RttAction::Pump);
    assert_eq!(rtt_action(true, HALTED, HALTED, true), RttAction::Idle);
}

#[test]
fn disabled_rtt_is_never_serviced() {
    assert_eq!(rtt_action(false, CoreStatus::Running, CoreStatus::Running, true), RttAction::Idle);
    assert_eq!(rtt_action(false, CoreStatus::Running, CoreStatus::Running, false), RttAction::Idle);
}

#[test]
fn discovery_waits_for_a_ready_client() {
    assert_eq!(rtt_action(true, CoreStatus::Running, CoreStatus::Unknown, false), RttAction::Idle);
    assert_eq!(rtt_action(true, CoreStatus::Running, CoreStatus::Running, false), RttAction::Attach);
}

#[test]
fn statuses_follow_the_configured_cores() {
    let mut pass = PollPass::new(CoreStatus::Running, vec![0, 1, 2]);
    pass.record_core(CoreStatus::Running, false);
    pass.record_core(HALTED, false);
    assert!(!pass.is_complete());
    pass.record_core(CoreStatus::Sleeping, false);
    assert!(pass.is_complete());
    assert_eq!(pass.into_statuses(), vec![CoreStatus::Running, HALTED, CoreStatus::Sleeping]);
}

#[test]
fn cores_are_handed_out_in_configuration_order() {
    let mut pass = PollPass::new(CoreStatus::Running, vec![4, 1]);
    assert_eq!(pass.next_core(), Some(4));
    pass.record_core(CoreStatus::Running, false);
    assert_eq!(pass.next_core(), Some(1));
    pass.skip_core();
    assert_eq!(pass.next_core(), None);
    assert!(pass.is_complete());
}

#[test]
fn skipped_core_gets_no_status() {
    let mut pass = PollPass::new(CoreStatus::Running, vec![0, 1]);
    pass.skip_core();
    pass.record_core(CoreStatus::Running, false);
    assert!(pass.is_complete());
    assert_eq!(pass.into_statuses(), vec![CoreStatus::Running]);
}

#[test]
fn unchanged_quiet_pass_pauses() {
    let mut pass = PollPass::new(HALTED, vec![0]);
    pass.record_core(HALTED, false);
    assert!(pass.needs_pause());
}

#[test]
fn changed_status_does_not_pause() {
    let mut pass = PollPass::new(CoreStatus::Running, vec![0, 1]);
    pass.record_core(CoreStatus::Running, false);
    pass.record_core(HALTED, false);
    assert!(!pass.needs_pause());
}

#[test]
fn rtt_data_does_not_pause() {
    let mut pass = PollPass::new(CoreStatus::Running, vec![0]);
    pass.record_core(CoreStatus::Running, true);
    assert!(!pass.needs_pause());
}

#[test]
fn halted_state_helper() {
    assert!(HALTED.is_halted());
    assert!(!CoreStatus::Running.is_halted());
}

#[test]
fn first_two_ticks_of_a_running_core() {
    let mut h: CoreHandle<(), (), (), u8> =
        CoreHandle { core_data: CoreData::new(0, "0-X".to_string(), ()), slot: 0 };
    // First tick: the core runs, the previous status is the initial unknown one.
    let mut pass = PollPass::new(CoreStatus::Unknown, vec![0]);
    let has_bridge = h.core_data.rtt_connection.is_some();
    assert!(!has_bridge);
    let _ = rtt_action(true, CoreStatus::Running, CoreStatus::Unknown, has_bridge);
    pass.record_core(CoreStatus::Running, false);
    assert!(!pass.needs_pause());
    assert_eq!(pass.into_statuses(), vec![CoreStatus::Running]);
    assert!(h.core_data.rtt_connection.is_none());
    // Second tick: still running; discovery now finds one structured channel.
    let mut pass = PollPass::new(CoreStatus::Running, vec![0]);
    assert_eq!(rtt_action(true, CoreStatus::Running, CoreStatus::Running, false), RttAction::Attach);
    let setups = rtt_channel_setups(&vec![RttChannelInfo {
        channel_name: "Log".to_string(),
        data_format: DataFormat::Defmt,
        up_channel: Some(0),
    }]);
    assert_eq!(setups.len(), 1);
    assert_eq!(setups[0].channel_number, 0);
    assert_eq!(setups[0].channel_name, "Log");
    assert_eq!(setups[0].data_format, DataFormat::Defmt);
    assert_eq!(setups[0].mode, Some(ChannelMode::BlockIfFull));
    h.attach_to_rtt(1, &setups);
    assert!(h.core_data.rtt_connection.is_some());
    pass.record_core(CoreStatus::Running, false);
    assert_eq!(pass.into_statuses(), vec![CoreStatus::Running]);
}
