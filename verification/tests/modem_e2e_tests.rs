//! End-to-end modem runs on clean signals: each test modulates a framed
//! byte stream into complex samples, demodulates it back, and drives the
//! recovered bytes through the library's sync search, frame parser and
//! codec.

use openham::bits::{bits_to_bytes_msb, bytes_to_bits_msb};
use openham::frame::Frame;
use openham::modem::{bpsk_sync_position, fsk_sync_position, qpsk_symbol_indices, OfdmConfig};
use openham::sync::sync_pattern;
use openham::text::HuffmanCodec;
use openham::txrx::{build_data_transmission, recover_message, TextCodecType};

const SAMPLE_RATE: f64 = 8000.0;
const SYMBOL_RATE: f64 = 500.0;
const CARRIER: f64 = 1500.0;

fn tx_stream_for(payload: &[u8]) -> Vec<u8> {
    let frame = Frame::new(1, 0, payload.to_vec(), 0);
    let mut stream = sync_pattern();
    stream.extend_from_slice(&frame.to_bytes());
    stream
}

fn bpsk_modulate(data: &[u8]) -> Vec<(f64, f64)> {
    let sps = (SAMPLE_RATE / SYMBOL_RATE) as usize;
    let omega = 2.0 * std::f64::consts::PI * CARRIER / SAMPLE_RATE;
    let mut n = 0.0f64;
    let mut out = Vec::new();
    for bit in bytes_to_bits_msb(data) {
        let symbol = if bit == 0 { -1.0 } else { 1.0 };
        for _ in 0..sps {
            let phase = omega * n;
            n += 1.0;
            out.push((symbol * phase.cos(), symbol * phase.sin()));
        }
    }
    out
}

fn bpsk_demodulate(samples: &[(f64, f64)]) -> Vec<u8> {
    let sps = (SAMPLE_RATE / SYMBOL_RATE) as usize;
    let omega = 2.0 * std::f64::consts::PI * CARRIER / SAMPLE_RATE;
    let bb: Vec<f64> = samples
        .iter()
        .enumerate()
        .map(|(i, s)| {
            let phase = omega * i as f64;
            s.0 * phase.cos() + s.1 * phase.sin()
        })
        .collect();
    let mut best: Option<(usize, usize)> = None;
    let mut candidates = Vec::new();
    for offset in 0..sps {
        let mut bits = Vec::new();
        let mut i = offset;
        while i + sps <= bb.len() {
            let acc: f64 = bb[i..i + sps].iter().sum();
            bits.push(if acc > 0.0 { 1 } else { 0 });
            i += sps;
        }
        let bytes = bits_to_bytes_msb(&bits);
        if let Some(pos) = bpsk_sync_position(&bytes) {
            match best {
                None => best = Some((offset, pos)),
                Some((_, bp)) if pos < bp => best = Some((offset, pos)),
                _ => {}
            }
        }
        candidates.push(bytes);
    }
    candidates[best.expect("no sync found").0].clone()
}

#[test]
fn test_bpsk_end_to_end_bytes() {
    let payload: Vec<u8> = (0u8..128).collect();
    let stream = tx_stream_for(&payload);
    let samples = bpsk_modulate(&stream);
    let received = bpsk_demodulate(&samples);
    let after = openham::sync::extract_frame_data_any_alignment(&received)
        .expect("sync not found in demodulated stream");
    let frame = Frame::from_bytes(&after).expect("frame did not parse");
    assert_eq!(frame.payload, payload);
}

#[test]
fn test_bpsk_end_to_end_text() {
    let mut codec = HuffmanCodec::new_english();
    let text = "Hello OpenHam";
    let stream = build_data_transmission(&mut codec, text, &TextCodecType::Huffman).unwrap();
    let samples = bpsk_modulate(&stream);
    let received = bpsk_demodulate(&samples);
    let message =
        recover_message(&mut codec, &received, &Some(TextCodecType::Huffman)).unwrap();
    assert_eq!(message, text);
}

fn fsk_modulate(data: &[u8]) -> Vec<(f64, f64)> {
    let sps = (SAMPLE_RATE / SYMBOL_RATE) as usize;
    let f_mark = CARRIER + 250.0;
    let f_space = CARRIER - 250.0;
    let mut phase = 0.0f64;
    let mut out = Vec::new();
    for bit in bytes_to_bits_msb(data) {
        let f = if bit != 0 { f_mark } else { f_space };
        for _ in 0..sps {
            let angle = 2.0 * std::f64::consts::PI * f * phase / SAMPLE_RATE;
            out.push((angle.cos(), angle.sin()));
            phase += 1.0;
            if phase >= SAMPLE_RATE {
                phase -= SAMPLE_RATE;
            }
        }
    }
    out
}

fn fsk_demodulate(samples: &[(f64, f64)]) -> Vec<u8> {
    let sps = (SAMPLE_RATE / SYMBOL_RATE) as usize;
    let f_mark = CARRIER + 250.0;
    let f_space = CARRIER - 250.0;
    let energy = |window: &[(f64, f64)], freq: f64| {
        let mut i_acc = 0.0;
        let mut q_acc = 0.0;
        for (k, s) in window.iter().enumerate() {
            let t = k as f64 / SAMPLE_RATE;
            let angle = 2.0 * std::f64::consts::PI * freq * t;
            i_acc += s.0 * angle.cos();
            q_acc += s.0 * (-angle.sin());
        }
        i_acc * i_acc + q_acc * q_acc
    };
    let mut best: Option<(usize, usize)> = None;
    let mut candidates = Vec::new();
    for offset in 0..sps {
        let mut bits = Vec::new();
        let mut i = offset;
        while i + sps <= samples.len() {
            let window = &samples[i..i + sps];
            bits.push(if energy(window, f_mark) > energy(window, f_space) { 1 } else { 0 });
            i += sps;
        }
        let bytes = bits_to_bytes_msb(&bits);
        if let Some(pos) = fsk_sync_position(&bytes) {
            match best {
                None => best = Some((offset, pos)),
                Some((_, bp)) if pos < bp => best = Some((offset, pos)),
                _ => {}
            }
        }
        candidates.push(bytes);
    }
    candidates[best.expect("no sync found").0].clone()
}

#[test]
fn test_fsk_end_to_end_bytes() {
    let payload: Vec<u8> = (0u8..64).map(|i| i.wrapping_mul(37).wrapping_add(11)).collect();
    let stream = tx_stream_for(&payload);
    let samples = fsk_modulate(&stream);
    let received = fsk_demodulate(&samples);
    let after = openham::sync::extract_frame_data_any_alignment(&received)
        .expect("sync not found in demodulated stream");
    let frame = Frame::from_bytes(&after).expect("frame did not parse");
    assert_eq!(frame.payload, payload);
}

fn ofdm_modulate(cfg: &OfdmConfig, data: &[u8]) -> Vec<(f64, f64)> {
    let n = cfg.fft_size;
    let mut planner = rustfft::FftPlanner::<f64>::new();
    let ifft = planner.plan_fft_inverse(n);
    let inv_sqrt2 = 1.0 / 2.0_f64.sqrt();
    let symbols: Vec<(f64, f64)> = qpsk_symbol_indices(data)
        .iter()
        .map(|idx| match idx {
            0 => (inv_sqrt2, inv_sqrt2),
            1 => (inv_sqrt2, -inv_sqrt2),
            2 => (-inv_sqrt2, inv_sqrt2),
            _ => (-inv_sqrt2, -inv_sqrt2),
        })
        .collect();
    let mut pilot_phase = 0.0f64;
    let mut out = Vec::new();
    for chunk in symbols.chunks(cfg.data_carriers.len()) {
        let mut freq = vec![rustfft::num_complex::Complex::new(0.0, 0.0); n];
        for (i, &(re, im)) in chunk.iter().enumerate() {
            let carrier = cfg.data_carriers[i];
            freq[carrier] = rustfft::num_complex::Complex::new(re, im);
            let mirror = (n + n - carrier) % n;
            if mirror != carrier {
                freq[mirror] = rustfft::num_complex::Complex::new(re, -im);
            }
        }
        for (i, &carrier) in cfg.pilot_carriers.iter().enumerate() {
            let base = cfg.pilot_symbols[i] as f64;
            let pilot = rustfft::num_complex::Complex::new(
                base * pilot_phase.cos(),
                base * pilot_phase.sin(),
            );
            freq[carrier] = pilot;
            let mirror = (n + n - carrier) % n;
            if mirror != carrier {
                freq[mirror] = pilot.conj();
            }
        }
        pilot_phase += std::f64::consts::PI / 4.0;
        freq[0] = rustfft::num_complex::Complex::new(0.0, 0.0);
        freq[n / 2] = rustfft::num_complex::Complex::new(0.0, 0.0);
        let mut time = freq.clone();
        ifft.process(&mut time);
        for t in &mut time {
            *t /= n as f64;
        }
        for k in n - cfg.cp_length..n {
            out.push((time[k].re, time[k].im));
        }
        for t in &time {
            out.push((t.re, t.im));
        }
    }
    out
}

fn cp_correlation(cfg: &OfdmConfig, buf: &[(f64, f64)], off: usize) -> f64 {
    let n = cfg.fft_size;
    let cp = cfg.cp_length;
    let mut cr = 0.0;
    let mut ci = 0.0;
    let mut p1 = 0.0;
    let mut p2 = 0.0;
    for k in 0..cp {
        let a = buf[off + k];
        let b = buf[off + n + k];
        cr += a.0 * b.0 + a.1 * b.1;
        ci += a.1 * b.0 - a.0 * b.1;
        p1 += a.0 * a.0 + a.1 * a.1;
        p2 += b.0 * b.0 + b.1 * b.1;
    }
    let norm = (p1 * p2).sqrt();
    if norm > 0.0 {
        (cr * cr + ci * ci).sqrt() / norm
    } else {
        0.0
    }
}

fn ofdm_demodulate(cfg: &OfdmConfig, samples: &[(f64, f64)]) -> Vec<u8> {
    let n = cfg.fft_size;
    let sym_len = n + cfg.cp_length;
    let mut planner = rustfft::FftPlanner::<f64>::new();
    let fft = planner.plan_fft_forward(n);
    let mut pilot_phase = 0.0f64;
    let mut bits = Vec::new();
    let mut pos = 0;
    while pos + sym_len <= samples.len() {
        let mut buf: Vec<rustfft::num_complex::Complex<f64>> = samples
            [pos + cfg.cp_length..pos + sym_len]
            .iter()
            .map(|&(re, im)| rustfft::num_complex::Complex::new(re, im))
            .collect();
        fft.process(&mut buf);
        // Channel is clean: undo only the pilot phase bookkeeping.
        let _ = pilot_phase;
        pilot_phase += std::f64::consts::PI / 4.0;
        for &carrier in &cfg.data_carriers {
            let s = buf[carrier];
            bits.push(if s.re >= 0.0 { 0 } else { 1 });
            bits.push(if s.im >= 0.0 { 0 } else { 1 });
        }
        pos += sym_len;
    }
    bits.truncate(bits.len() - bits.len() % 8);
    bits_to_bytes_msb(&bits)
}

#[test]
fn test_ofdm_cp_correlation_exceeds_threshold() {
    let cfg = OfdmConfig::amateur_radio_64();
    let stream = tx_stream_for(b"TESTTESTTESTTESTTEST");
    let samples = ofdm_modulate(&cfg, &stream);
    let c = cp_correlation(&cfg, &samples, 0);
    assert!(c > 0.5, "CP correlation at the symbol boundary was {}", c);
}

#[test]
fn test_ofdm_end_to_end_bytes() {
    let cfg = OfdmConfig::amateur_radio_64();
    let payload = b"TESTTESTTESTTESTTEST".to_vec();
    let stream = tx_stream_for(&payload);
    let samples = ofdm_modulate(&cfg, &stream);
    let received = ofdm_demodulate(&cfg, &samples);
    let after = openham::sync::extract_frame_data_any_alignment(&received)
        .expect("sync not found in demodulated stream");
    let frame = Frame::from_bytes(&after).expect("frame did not parse");
    assert_eq!(frame.payload, payload);
}
