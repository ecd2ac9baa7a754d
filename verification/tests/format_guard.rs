use audiolink_engine::format_guard::{
    require_unified_format, require_unified_link, DeviceFormat, FormatMismatch, SampleFormat,
    UNIFIED_SAMPLE_RATE_HZ,
};

fn unified() -> DeviceFormat {
    DeviceFormat::new(UNIFIED_SAMPLE_RATE_HZ, 2, SampleFormat::F32)
}

#[test]
fn accepts_exactly_the_unified_format() {
    assert!(require_unified_format("capture", "wasapi-loopback", unified()).is_ok());
}

#[test]
fn rejects_forty_four_one_kilohertz_and_tells_the_user_what_to_do() {
    let format = DeviceFormat::new(44_100, 2, SampleFormat::F32);
    let error = require_unified_format("capture", "wasapi-loopback", format).unwrap_err();
    match &error {
        FormatMismatch::SampleRate { role, backend, actual_hz } => {
            assert_eq!(*role, "capture");
            assert_eq!(backend, "wasapi-loopback");
            assert_eq!(*actual_hz, 44_100, "the actual rate is reported");
        }
        other => panic!("expected a sample-rate refusal, got {other:?}"),
    }
    let context = error.message();
    assert!(context.contains("44100"), "the actual value: {context}");
    assert!(context.contains("48000"), "the required value: {context}");
    assert!(context.contains("sound settings"), "what to do about it: {context}");
    assert!(context.contains("never resamples"), "no silent resampling: {context}");
}

#[test]
fn rejects_wrong_channel_count() {
    let mono = DeviceFormat::new(UNIFIED_SAMPLE_RATE_HZ, 1, SampleFormat::F32);
    let error = require_unified_format("playout", "wasapi-render", mono).unwrap_err();
    assert!(matches!(error, FormatMismatch::Channels { actual: 1, .. }));
    assert!(error.message().contains("1 channel"));
    let surround = DeviceFormat::new(UNIFIED_SAMPLE_RATE_HZ, 6, SampleFormat::F32);
    assert!(require_unified_format("playout", "wasapi-render", surround).is_err());
}

#[test]
fn rejects_non_f32_sample_formats() {
    for (format, needle) in [(SampleFormat::I16, "I16"), (SampleFormat::I24, "I24"), (SampleFormat::I32, "I32")] {
        let device = DeviceFormat::new(UNIFIED_SAMPLE_RATE_HZ, 2, format);
        let error = require_unified_format("capture", "wasapi-loopback", device).unwrap_err();
        match &error {
            FormatMismatch::SampleFormat { actual, .. } => assert_eq!(*actual, format, "the format is named"),
            other => panic!("expected a sample-format refusal, got {other:?}"),
        }
        assert!(error.message().contains(needle), "{}", error.message());
    }
}

#[test]
fn link_assertion_names_the_failing_side() {
    let bad = DeviceFormat::new(44_100, 2, SampleFormat::F32);

    let error = require_unified_link(Some(("wasapi-loopback", bad)), Some(("wasapi-render", unified()))).unwrap_err();
    assert!(matches!(error, FormatMismatch::SampleRate { role: "capture", .. }));
    assert!(error.message().starts_with("capture device"));

    let error = require_unified_link(Some(("wasapi-loopback", unified())), Some(("wasapi-render", bad))).unwrap_err();
    assert!(matches!(error, FormatMismatch::SampleRate { role: "playout", .. }));
    assert!(error.message().starts_with("playout device"));
}

#[test]
fn link_assertion_accepts_a_one_sided_link() {
    assert!(require_unified_link(Some(("wasapi-loopback", unified())), None).is_ok());
    assert!(require_unified_link(None, Some(("wasapi-render", unified()))).is_ok());
    assert!(require_unified_link(None, None).is_ok());
}

#[test]
fn the_sample_rate_is_reported_before_other_mismatches() {
    let everything_wrong = DeviceFormat::new(44_100, 1, SampleFormat::I16);
    assert!(matches!(
        require_unified_format("capture", "x", everything_wrong),
        Err(FormatMismatch::SampleRate { .. })
    ));
    let channels_and_format = DeviceFormat::new(UNIFIED_SAMPLE_RATE_HZ, 1, SampleFormat::I16);
    assert!(matches!(
        require_unified_format("capture", "x", channels_and_format),
        Err(FormatMismatch::Channels { .. })
    ));
}

#[test]
fn refusal_text_is_exact() {
    let rate = require_unified_format("capture", "wasapi-loopback", DeviceFormat::new(44_100, 2, SampleFormat::F32))
        .unwrap_err();
    assert_eq!(
        rate.message(),
        "capture device 'wasapi-loopback' runs at 44100 Hz but AudioLink requires 48000 Hz; \
         change the device's sample rate in the OS sound settings \
         (AudioLink never resamples silently)"
    );
    let channels = require_unified_format("playout", "aaudio", DeviceFormat::new(48_000, 6, SampleFormat::F32))
        .unwrap_err();
    assert_eq!(channels.message(), "playout device 'aaudio' exposes 6 channel(s) but AudioLink requires 2");
    let format = require_unified_format("capture", "x", DeviceFormat::new(48_000, 2, SampleFormat::I24)).unwrap_err();
    assert_eq!(format.message(), "capture device 'x' delivers I24 samples but AudioLink requires f32");
}
