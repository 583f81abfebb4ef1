use kazoo_core::io::{check_recording_format, device_caps, stream_params, ConfigRange, DeviceInfo, StreamConfig};
use kazoo_core::Error;

#[test]
fn stream_config_default_values() {
    let cfg = StreamConfig::default();
    assert!(cfg.sample_rate.is_none());
    assert!(cfg.buffer_size.is_none());
    assert!(cfg.input_device.is_none());
    assert!(cfg.output_device.is_none());
    assert_eq!(cfg.input_channels, 1);
    assert_eq!(cfg.output_channels, 2);
}

#[test]
fn device_info_debug() {
    let info = DeviceInfo {
        name: "Test".to_owned(),
        is_default: true,
        max_input_channels: 2,
        max_output_channels: 2,
        supported_sample_rates: vec![44_100, 48_000],
    };
    let dbg = format!("{info:?}");
    assert!(dbg.contains("Test"));
}

#[test]
fn device_caps_collects_standard_rates() {
    let configs = [
        ConfigRange { channels: 2, min_sample_rate: 44_100, max_sample_rate: 48_000 },
        ConfigRange { channels: 1, min_sample_rate: 8_000, max_sample_rate: 16_000 },
        ConfigRange { channels: 4, min_sample_rate: 48_000, max_sample_rate: 48_000 },
    ];
    let (max_channels, rates) = device_caps(&configs);
    assert_eq!(max_channels, 4);
    assert_eq!(rates, vec![8000, 11_025, 16_000, 44_100, 48_000]);
}

#[test]
fn device_caps_without_configs() {
    let (max_channels, rates) = device_caps(&[]);
    assert_eq!(max_channels, 0);
    assert!(rates.is_empty());
}

#[test]
fn stream_params_use_defaults() {
    let p = stream_params(&StreamConfig::default()).unwrap();
    assert_eq!(p.sample_rate, 44_100);
    assert_eq!(p.buffer_size, 128);
    assert_eq!(p.device_buffer_size, 128);
}

#[test]
fn stream_params_reject_huge_buffer() {
    if usize::BITS > 32 {
        let cfg = StreamConfig { buffer_size: Some(u32::MAX as usize + 1), ..StreamConfig::default() };
        assert!(matches!(stream_params(&cfg), Err(Error::Config(_))));
    }
    let cfg = StreamConfig { sample_rate: Some(96_000), buffer_size: Some(512), ..StreamConfig::default() };
    let p = stream_params(&cfg).unwrap();
    assert_eq!((p.sample_rate, p.buffer_size, p.device_buffer_size), (96_000, 512, 512));
}

#[test]
fn recording_format_needs_channels_and_rate() {
    assert!(check_recording_format(44_100, 2).is_ok());
    assert!(matches!(check_recording_format(44_100, 0), Err(Error::Config(_))));
    assert!(matches!(check_recording_format(0, 2), Err(Error::Config(_))));
    match check_recording_format(0, 0) {
        Err(Error::Config(m)) => assert_eq!(m, "channel count must be > 0"),
        _ => panic!("expected a configuration error"),
    }
}
