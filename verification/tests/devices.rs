use bellow::devices::{
    build_device_list, choose_stream_settings, collect_sample_rates, device_info, DeviceProbe, PortProbe,
    StreamSettings,
};

fn port(channels: u16, rates: Option<Vec<u32>>) -> PortProbe {
    PortProbe { channels, rates }
}

#[test]
fn rates_sorted_and_deduplicated() {
    assert_eq!(
        collect_sample_rates(Some(vec![48000, 44100, 48000, 96000, 44100])),
        vec![44100, 48000, 96000]
    );
    assert_eq!(collect_sample_rates(Some(vec![])), Vec::<u32>::new());
    assert_eq!(collect_sample_rates(None), vec![44100, 48000, 96000]);
}

#[test]
fn device_without_ports_keeps_defaults() {
    let d = device_info("ALSA", &DeviceProbe { name: None, input: None, output: None });
    assert_eq!(d.name, "Unknown");
    assert_eq!(d.id, "ALSA:Unknown");
    assert_eq!(d.host_api, "ALSA");
    assert!(!d.is_input && !d.is_output && !d.is_default);
    assert_eq!(d.channel_count, 2);
    assert_eq!(d.channel_layout, vec!["L", "R"]);
    assert_eq!(d.supported_sample_rates, vec![44100, 48000, 88200, 96000, 192000]);
    assert_eq!(d.supported_buffer_sizes.min, 16);
    assert_eq!(d.supported_buffer_sizes.max, 4096);
    assert_eq!(d.supported_buffer_sizes.preferred, vec![64, 128, 256, 512, 1024]);
    assert_eq!(d.supported_formats, vec!["f32", "i16", "i32"]);
}

#[test]
fn output_port_wins_over_input() {
    let probe = DeviceProbe {
        name: Some("Duplex".to_string()),
        input: Some(port(1, Some(vec![8000, 8000]))),
        output: Some(port(6, None)),
    };
    let d = device_info("JACK", &probe);
    assert!(d.is_input && d.is_output);
    assert_eq!(d.channel_count, 6);
    assert_eq!(d.supported_sample_rates, vec![44100, 48000, 96000]);
    let probe_in = DeviceProbe { name: Some("Mic".to_string()), input: Some(port(1, Some(vec![16000, 8000]))), output: None };
    let m = device_info("JACK", &probe_in);
    assert_eq!(m.channel_count, 1);
    assert_eq!(m.supported_sample_rates, vec![8000, 16000]);
}

#[test]
fn list_splits_and_marks_defaults() {
    let probes = vec![
        DeviceProbe { name: Some("Mic".to_string()), input: Some(port(1, None)), output: None },
        DeviceProbe { name: Some("Speakers".to_string()), input: None, output: Some(port(2, None)) },
        DeviceProbe { name: Some("Headset".to_string()), input: Some(port(1, None)), output: Some(port(2, None)) },
        DeviceProbe { name: Some("Dead".to_string()), input: None, output: None },
    ];
    let list = build_device_list(
        "WASAPI".to_string(),
        &probes,
        &Some("Headset".to_string()),
        &Some("Speakers".to_string()),
    );
    assert_eq!(list.host_apis, vec!["WASAPI"]);
    let ins: Vec<(&str, bool)> = list.inputs.iter().map(|d| (d.name.as_str(), d.is_default)).collect();
    assert_eq!(ins, vec![("Mic", false), ("Headset", true)]);
    let outs: Vec<(&str, bool)> = list.outputs.iter().map(|d| (d.name.as_str(), d.is_default)).collect();
    // the default input carries its mark into the outputs list
    assert_eq!(outs, vec![("Speakers", true), ("Headset", true)]);
}

#[test]
fn default_named_device_listed_even_without_port() {
    let probes = vec![DeviceProbe { name: Some("Ghost".to_string()), input: None, output: None }];
    let list = build_device_list("X".to_string(), &probes, &Some("Ghost".to_string()), &None);
    assert_eq!(list.inputs.len(), 1);
    assert!(list.inputs[0].is_default);
    assert!(list.outputs.is_empty());
}

#[test]
fn zero_asks_for_the_device_default() {
    let s = choose_stream_settings(48000, 2, 0, 0, 0);
    assert_eq!(s, StreamSettings { sample_rate: 48000, channels: 2, buffer_size: None });
    let s = choose_stream_settings(48000, 2, 44100, 1, 256);
    assert_eq!(s, StreamSettings { sample_rate: 44100, channels: 1, buffer_size: Some(256) });
}
