use debugger_session::error::DebuggerError;
use debugger_session::session_data::{
    resolve_probe, select_core_configs, CoreConfig, ProbeChoice, SessionData,
};

type Session = SessionData<&'static str, u8, (), (), ()>;

fn config(index: usize, binary: Option<&str>) -> CoreConfig {
    CoreConfig { core_index: index, program_binary: binary.map(|b| b.to_string()), rtt_enabled: true }
}

fn session() -> Session {
    let configs = vec![config(0, Some("app.bin"))];
    SessionData::new("probe", &"X".to_string(), &configs, vec![7])
}

#[test]
fn several_probes_without_selector_are_ambiguous() {
    assert_eq!(resolve_probe(false, 2), Err(DebuggerError::AmbiguousProbe(2)));
    assert_eq!(resolve_probe(false, 5), Err(DebuggerError::AmbiguousProbe(5)));
}

#[test]
fn one_probe_without_selector_is_chosen() {
    assert_eq!(resolve_probe(false, 1), Ok(ProbeChoice::OnlyAttached));
}

#[test]
fn no_probe_without_selector_fails() {
    assert_eq!(resolve_probe(false, 0), Err(DebuggerError::NoProbe));
}

#[test]
fn selector_wins_over_enumeration() {
    assert_eq!(resolve_probe(true, 0), Ok(ProbeChoice::Selected));
    assert_eq!(resolve_probe(true, 3), Ok(ProbeChoice::Selected));
}

#[test]
fn core_configuration_must_have_one_entry() {
    assert!(matches!(
        select_core_configs(vec![], &vec![0]),
        Err(DebuggerError::InvalidCoreConfiguration(0))
    ));
    assert!(matches!(
        select_core_configs(vec![config(0, Some("a")), config(1, Some("b"))], &vec![0, 1]),
        Err(DebuggerError::InvalidCoreConfiguration(2))
    ));
}

#[test]
fn core_missing_on_target_is_dropped() {
    let kept = select_core_configs(vec![config(3, Some("a"))], &vec![0, 1]).unwrap();
    assert!(kept.is_empty());
}

#[test]
fn core_without_binary_fails() {
    assert!(matches!(
        select_core_configs(vec![config(1, None)], &vec![0, 1]),
        Err(DebuggerError::MissingOrInvalidDebugInfo(1))
    ));
}

#[test]
fn valid_core_is_kept() {
    let kept = select_core_configs(vec![config(1, Some("app.bin"))], &vec![0, 1]).unwrap();
    assert_eq!(kept.len(), 1);
    assert_eq!(kept[0].core_index, 1);
    assert_eq!(kept[0].program_binary.as_deref(), Some("app.bin"));
}

#[test]
fn new_session_has_fresh_labelled_cores() {
    let configs = vec![config(12, Some("app.bin"))];
    let s: Session = SessionData::new("probe", &"nRF52840".to_string(), &configs, vec![9]);
    assert_eq!(s.core_data.len(), 1);
    let core = s.core_data[0].as_ref().unwrap();
    assert_eq!(core.core_index, 12);
    assert_eq!(core.target_name, "12-nRF52840");
    assert_eq!(core.debug_info, 9);
    assert!(core.stack_frames.is_empty());
    assert!(core.breakpoints.is_empty());
    assert!(core.rtt_connection.is_none());
    assert!(s.checked_out.is_none());
}

#[test]
fn attach_core_without_cached_state_is_not_found() {
    let mut s = session();
    assert!(matches!(s.attach_core(4, true), Err(DebuggerError::CoreNotFound(4))));
}

#[test]
fn attach_core_without_live_core_is_not_found() {
    let mut s = session();
    assert!(matches!(s.attach_core(0, false), Err(DebuggerError::CoreNotFound(0))));
    assert!(s.checked_out.is_none());
}

#[test]
fn second_checkout_is_refused_until_release() {
    let mut s = session();
    let h = s.attach_core(0, true).unwrap();
    assert_eq!(h.core_data.target_name, "0-X");
    assert!(matches!(s.attach_core(0, true), Err(DebuggerError::CoreInUse(0))));
    assert_eq!(s.release_core(h), Ok(()));
    let mut h = s.attach_core(0, true).unwrap();
    h.set_breakpoint(0x100, debugger_session::breakpoints::BreakpointType::InstructionBreakpoint, true)
        .unwrap();
    s.release_core(h).unwrap();
    let back = s.core_data[0].as_ref().unwrap();
    assert_eq!(back.breakpoints.len(), 1);
}

#[test]
fn release_without_checkout_is_refused() {
    let mut s = session();
    let h = s.attach_core(0, true).unwrap();
    s.release_core(h).unwrap();
    let stray = debugger_session::core_data::CoreHandle {
        core_data: debugger_session::core_data::CoreData::new(0, "0-X".to_string(), 1u8),
        slot: 0,
    };
    assert_eq!(s.release_core(stray), Err(DebuggerError::CoreNotFound(0)));
    assert_eq!(s.core_data[0].as_ref().unwrap().debug_info, 7);
}
