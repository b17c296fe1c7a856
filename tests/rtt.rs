use debugger_session::core_data::{
    rtt_channel_setups, ChannelMode, CoreData, CoreHandle, DataFormat, DebuggerRttChannel,
    RttChannelInfo,
};

fn channel(name: &str, format: DataFormat, up: Option<usize>) -> RttChannelInfo {
    RttChannelInfo { channel_name: name.to_string(), data_format: format, up_channel: up }
}

#[test]
fn structured_channels_block_and_text_channels_keep_their_mode() {
    let channels = vec![
        channel("Log", DataFormat::Defmt, Some(0)),
        channel("Text", DataFormat::String, Some(1)),
        channel("Input", DataFormat::BinaryLE, None),
        channel("Raw", DataFormat::BinaryLE, Some(3)),
    ];
    let setups = rtt_channel_setups(&channels);
    assert_eq!(setups.len(), 3);
    assert_eq!(setups[0].channel_number, 0);
    assert_eq!(setups[0].channel_name, "Log");
    assert_eq!(setups[0].mode, Some(ChannelMode::BlockIfFull));
    assert_eq!(setups[1].channel_number, 1);
    assert_eq!(setups[1].channel_name, "Text");
    assert_eq!(setups[1].mode, None);
    assert_eq!(setups[2].channel_number, 3);
    assert_eq!(setups[2].data_format, DataFormat::BinaryLE);
    assert_eq!(setups[2].mode, None);
}

#[test]
fn no_channels_no_setups() {
    assert!(rtt_channel_setups(&vec![]).is_empty());
}

#[test]
fn attach_to_rtt_installs_bridge_without_client_windows() {
    let mut h: CoreHandle<(), (), (), &str> =
        CoreHandle { core_data: CoreData::new(0, "0-X".to_string(), ()), slot: 0 };
    assert!(h.core_data.rtt_connection.is_none());
    let setups = rtt_channel_setups(&vec![
        channel("Log", DataFormat::Defmt, Some(0)),
        channel("Text", DataFormat::String, Some(2)),
    ]);
    h.attach_to_rtt("control block", &setups);
    let bridge = h.core_data.rtt_connection.as_ref().unwrap();
    assert_eq!(bridge.target_rtt, "control block");
    assert_eq!(
        bridge.debugger_rtt_channels,
        vec![
            DebuggerRttChannel { channel_number: 0, has_client_window: false },
            DebuggerRttChannel { channel_number: 2, has_client_window: false },
        ]
    );
}

#[test]
fn client_window_acknowledgement_marks_the_channel() {
    let mut h: CoreHandle<(), (), (), ()> =
        CoreHandle { core_data: CoreData::new(0, "0-X".to_string(), ()), slot: 0 };
    let setups = rtt_channel_setups(&vec![
        channel("Log", DataFormat::Defmt, Some(0)),
        channel("Text", DataFormat::String, Some(2)),
    ]);
    h.attach_to_rtt((), &setups);
    let bridge = h.core_data.rtt_connection.as_mut().unwrap();
    assert!(bridge.client_window_opened(2));
    assert!(!bridge.client_window_opened(5));
    assert_eq!(
        bridge.debugger_rtt_channels,
        vec![
            DebuggerRttChannel { channel_number: 0, has_client_window: false },
            DebuggerRttChannel { channel_number: 2, has_client_window: true },
        ]
    );
}
