use hachimi_cat::constant::SAMPLE_RATE;
use hachimi_cat::device::{select_input_config, select_output_config, ConfigRange};
use hachimi_cat::engine::Error;

fn range(float_samples: bool, min_rate: u32, max_rate: u32, channels: u16) -> ConfigRange {
    ConfigRange { float_samples, min_rate, max_rate, channels }
}

#[test]
fn input_config_first_float_mono_at_rate() {
    let configs = [
        range(false, 8000, 96000, 1),
        range(true, 8000, 44100, 1),
        range(true, 8000, 96000, 2),
        range(true, 48000, 48000, 1),
        range(true, 8000, 96000, 1),
    ];
    assert_eq!(select_input_config(&configs, SAMPLE_RATE), Ok(3));
}

#[test]
fn input_config_none_fits() {
    let configs = [range(true, 8000, 96000, 2), range(false, 8000, 96000, 1)];
    assert_eq!(select_input_config(&configs, SAMPLE_RATE), Err(Error::UnsupportedInputSampleFormat));
    assert_eq!(select_input_config(&[], SAMPLE_RATE), Err(Error::UnsupportedInputSampleFormat));
}

#[test]
fn output_config_accepts_stereo() {
    let configs = [range(true, 8000, 96000, 6), range(true, 8000, 96000, 2)];
    assert_eq!(select_output_config(&configs, SAMPLE_RATE), Ok(1));
    assert_eq!(
        select_output_config(&[range(true, 8000, 22050, 2)], SAMPLE_RATE),
        Err(Error::UnsupportedOutputSampleFormat)
    );
}
