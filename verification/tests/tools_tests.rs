//! Tool helpers: audio formats, sample formats, progress accounting,
//! morse translation, voice codec state, packaging names, and the OFDM
//! carrier plan.

use openham::buildinfo::{CBindgenConfig, PackageConfig, VersionInfo};
use openham::modem::OfdmConfig;
use openham::morse::{text_to_morse, MorseElement};
use openham::tools::{AudioFormat, GlobalConfig, ProgressReporter, SampleFormat};
use openham::voice::{OpusCodec, PcmCodec};

#[test]
fn test_audio_format_detection() {
    assert_eq!(AudioFormat::from_path("test.wav"), AudioFormat::Wav);
    assert_eq!(AudioFormat::from_path("test.raw"), AudioFormat::Raw);
    assert_eq!(AudioFormat::from_path("test.iq"), AudioFormat::Complex);
    assert_eq!(AudioFormat::from_path("test.unknown"), AudioFormat::Raw);
}

#[test]
fn test_audio_format_extension() {
    assert_eq!(AudioFormat::Wav.extension(), "wav");
    assert_eq!(AudioFormat::Complex.extension(), "iq");
    assert_eq!(AudioFormat::from_path("dir.wav/file"), AudioFormat::Raw);
    assert_eq!(AudioFormat::from_path(".wav"), AudioFormat::Raw);
}

#[test]
fn test_sample_format() {
    assert_eq!(SampleFormat::from_str("f32").unwrap(), SampleFormat::F32Le);
    assert_eq!(SampleFormat::from_str("I16LE").unwrap(), SampleFormat::I16Le);
    assert!(SampleFormat::from_str("unknown").is_err());
}

#[test]
fn test_sample_format_sizes() {
    assert_eq!(SampleFormat::F32Le.bytes_per_sample(), 4);
    assert_eq!(SampleFormat::F64Le.bytes_per_sample(), 8);
    assert_eq!(SampleFormat::I16Le.bytes_per_sample(), 2);
    assert_eq!(SampleFormat::I32Le.bytes_per_sample(), 4);
}

#[test]
fn test_progress_reporter() {
    let mut reporter = ProgressReporter::new(100, false);
    reporter.update(50);
    assert_eq!(reporter.current, 50);
    reporter.complete();
}

#[test]
fn test_progress_reporter_verbose_steps() {
    let mut reporter = ProgressReporter::new(200, true);
    assert_eq!(reporter.update(20), Some(10));
    assert_eq!(reporter.update(30), None);
    assert_eq!(reporter.update(40), Some(20));
    assert!(reporter.complete());
}

#[test]
fn test_global_config_default() {
    let config = GlobalConfig::default();
    assert!(config.config.is_none());
    assert!(!config.debug);
    assert_eq!(config.log_level, "info");
}

#[test]
fn test_morse_conversion() {
    let elements = text_to_morse("SOS");
    assert!(!elements.is_empty());
    assert!(elements.contains(&MorseElement::Dot));
    assert!(elements.contains(&MorseElement::Dash));
}

#[test]
fn test_morse_exact_sequence() {
    // "E T" : dot, word gap, dash.
    let elements = text_to_morse("E T");
    assert_eq!(
        elements,
        vec![MorseElement::Dot, MorseElement::WordSpace, MorseElement::Dash]
    );
}

#[test]
fn test_morse_lowercase_matches_uppercase() {
    assert_eq!(text_to_morse("sos"), text_to_morse("SOS"));
}

#[test]
fn test_morse_spacing() {
    // "AB": dot gap dash, character gap, dash gap dot gap dot gap dot.
    let a = text_to_morse("AB");
    assert_eq!(
        a,
        vec![
            MorseElement::Dot,
            MorseElement::ElementSpace,
            MorseElement::Dash,
            MorseElement::CharacterSpace,
            MorseElement::Dash,
            MorseElement::ElementSpace,
            MorseElement::Dot,
            MorseElement::ElementSpace,
            MorseElement::Dot,
            MorseElement::ElementSpace,
            MorseElement::Dot
        ]
    );
}

#[test]
fn test_voice_codec_rates() {
    let opus = OpusCodec::new(48000, 32000).unwrap();
    assert_eq!(opus.sample_rate(), 48000);
    assert_eq!(opus.bit_rate(), 32000);
    let pcm = PcmCodec::new(8000);
    assert_eq!(pcm.sample_rate(), 8000);
    assert_eq!(pcm.bit_rate(), 8000 * 16);
}

#[test]
fn test_package_filename() {
    let cfg = PackageConfig::new("openham", "0.1.0", "x86_64-linux");
    assert_eq!(cfg.package_filename(), "openham-0.1.0-x86_64-linux.tar.gz");
    let mut plain = PackageConfig::new("openham", "0.1.0", "arm64");
    plain.compress = false;
    assert_eq!(plain.package_filename(), "openham-0.1.0-arm64");
}

#[test]
fn test_cbindgen_config() {
    let c = CBindgenConfig::new_c("core", "openham.h");
    assert_eq!(c.crate_dir, "core");
    assert_eq!(c.output_file, "openham.h");
    let _cpp = CBindgenConfig::new_cpp("core", "openham.hpp");
}

#[test]
fn test_version_string_formats() {
    let with_hash = VersionInfo {
        version: "0.1.0".to_string(),
        git_hash: Some("abcdef1234567890".to_string()),
        build_date: String::new(),
        rust_version: String::new(),
        target: String::new(),
    };
    assert_eq!(with_hash.version_string(), "0.1.0 (abcdef12)");
    let without = VersionInfo { git_hash: None, ..with_hash };
    assert_eq!(without.version_string(), "0.1.0");
}

#[test]
fn test_ofdm_config_creation() {
    let config = OfdmConfig::amateur_radio_64();
    assert_eq!(config.fft_size, 64);
    assert_eq!(config.cp_length, 16);
    assert!(!config.data_carriers.is_empty());
    assert!(!config.pilot_carriers.is_empty());
}

#[test]
fn test_ofdm_carrier_plan() {
    let config = OfdmConfig::amateur_radio_64();
    assert_eq!(config.data_carriers.len(), 28);
    assert_eq!(config.pilot_carriers, vec![5, 15, 25]);
    assert_eq!(config.null_carriers, vec![0, 32]);
    assert!(!config.data_carriers.contains(&5));
    assert_eq!(config.symbol_length(), 80);
    assert_eq!(config.num_data_carriers(), 28);
    let robust = OfdmConfig::robust_128();
    assert_eq!(robust.fft_size, 128);
    assert_eq!(robust.pilot_carriers.len(), robust.pilot_symbols.len());
}
