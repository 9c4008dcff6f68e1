use hachimi_cat::constant::FRAME10MS;
use hachimi_cat::engine::{decode_request, DecodeCommand, EmptyAudioProcessor, Error};
use hachimi_cat::error::Error as DeviceError;
use hachimi_cat::scheduler::ExternalLevels;

#[test]
fn decode_normal_packet() {
    let r = decode_request(Some(DecodeCommand::DecodeNormal(vec![1, 2, 3])));
    assert_eq!(r.packet, vec![1, 2, 3]);
    assert!(!r.fec);
}

#[test]
fn decode_fec_packet() {
    let r = decode_request(Some(DecodeCommand::DecodeFEC(vec![9, 8])));
    assert_eq!(r.packet, vec![9, 8]);
    assert!(r.fec);
}

#[test]
fn decode_plc_ten_times() {
    for _ in 0..10 {
        let r = decode_request(Some(DecodeCommand::DecodePLC));
        assert!(r.packet.is_empty());
        assert!(!r.fec);
    }
}

#[test]
fn decode_with_empty_input_conceals() {
    let r = decode_request(None);
    assert!(r.packet.is_empty());
    assert!(!r.fec);
}

#[test]
fn engine_error_messages() {
    assert_eq!(Error::InputDeviceInitError.message(), "input device init error");
    assert_eq!(Error::OutputDeviceInitError.message(), "output device init error");
    assert_eq!(Error::UnsupportedInputSampleFormat.message(), "unsupported input sample format");
    assert_eq!(Error::UnsupportedOutputSampleFormat.message(), "unsupported output sample format");
}

#[test]
fn device_error_messages() {
    assert_eq!(DeviceError::InputDeviceInitError.message(), "input device init error");
    assert_eq!(DeviceError::OutputDeviceInitError.message(), "output device init error");
    assert_eq!(DeviceError::UnsupportedSampleFormat.message(), "unsupported sample format");
}

#[test]
fn empty_processor_builds() {
    assert!(EmptyAudioProcessor::build().is_ok());
}

#[test]
fn empty_processor_passes_whole_frames_only() {
    let p = EmptyAudioProcessor::build().unwrap();
    let e = ExternalLevels { mic_in: 3 * FRAME10MS + 7, ref_in: 5 * FRAME10MS, mic_out_room: 4 * FRAME10MS, ref_out_room: 9 * FRAME10MS };
    assert_eq!(p.plan_pass(e), 3);
    let starved = ExternalLevels { mic_in: 5 * FRAME10MS, ref_in: FRAME10MS - 1, mic_out_room: 4 * FRAME10MS, ref_out_room: 9 * FRAME10MS };
    assert_eq!(p.plan_pass(starved), 0);
    let full = ExternalLevels { mic_in: 5 * FRAME10MS, ref_in: 5 * FRAME10MS, mic_out_room: 4 * FRAME10MS, ref_out_room: 2 * FRAME10MS };
    assert_eq!(p.plan_pass(full), 2);
}
