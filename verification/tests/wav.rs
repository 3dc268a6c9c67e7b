use rigg_voice::wav::{decode_wav, from_ints, normalize_all, WavAudio, WavHeader};

fn file(format: u16, channels: u16, rate: u32, bits: u16, data: &[u8]) -> Vec<u8> {
    let block = channels * (bits / 8);
    let mut b: Vec<u8> = Vec::new();
    b.extend_from_slice(b"RIFF");
    b.extend_from_slice(&(36 + data.len() as u32).to_le_bytes());
    b.extend_from_slice(b"WAVEfmt ");
    b.extend_from_slice(&16u32.to_le_bytes());
    b.extend_from_slice(&format.to_le_bytes());
    b.extend_from_slice(&channels.to_le_bytes());
    b.extend_from_slice(&rate.to_le_bytes());
    b.extend_from_slice(&(rate * block as u32).to_le_bytes());
    b.extend_from_slice(&block.to_le_bytes());
    b.extend_from_slice(&bits.to_le_bytes());
    b.extend_from_slice(b"data");
    b.extend_from_slice(&(data.len() as u32).to_le_bytes());
    b.extend_from_slice(data);
    b
}

fn values(a: &WavAudio) -> Vec<f32> {
    a.samples.as_ref().unwrap().iter().map(|b| f32::from_bits(*b)).collect()
}

#[test]
fn sixteen_bit_files_are_read() {
    let a = decode_wav(&file(1, 2, 44100, 16, &[0, 0x40, 0, 0x80, 0xff, 0x7f, 0, 0])).unwrap();
    assert_eq!((a.channels, a.sample_rate), (2, 44100));
    assert_eq!(values(&a), vec![0.5, -1.0, 32767.0 / 32768.0, 0.0]);
}

#[test]
fn eight_bit_files_are_centred() {
    let a = decode_wav(&file(1, 1, 8000, 8, &[0, 128, 192])).unwrap();
    assert_eq!(values(&a), vec![-1.0, 0.0, 0.5]);
}

#[test]
fn wide_files_are_read() {
    let a = decode_wav(&file(1, 1, 8000, 24, &[0, 0, 0xc0])).unwrap();
    assert_eq!(values(&a), vec![-0.5]);
    let a = decode_wav(&file(1, 1, 8000, 32, &[1, 0, 0, 0x40])).unwrap();
    assert_eq!(values(&a), vec![1073741825i32 as f32 / 2147483648.0]);
}

#[test]
fn float_files_keep_their_samples() {
    let a = decode_wav(&file(3, 1, 16000, 32, &0.25f32.to_le_bytes())).unwrap();
    assert_eq!(a, WavAudio { channels: 1, sample_rate: 16000, samples: None });
}

#[test]
fn broken_files_are_refused() {
    assert_eq!(decode_wav(b"RIFX").unwrap_err(), "Ill-formed WAVE file: no RIFF tag found");
    assert_eq!(decode_wav(b"RI").unwrap_err(), "Failed to read enough bytes.");
    assert_eq!(decode_wav(&file(2, 1, 8000, 8, &[0])).unwrap_err(), "The wave format of the file is not supported.");
    let mut cut = file(1, 1, 8000, 16, &[1, 2, 3, 4]);
    cut.pop();
    assert_eq!(decode_wav(&cut).unwrap_err(), "Failed to read enough bytes.");
}

#[test]
fn an_empty_file_has_no_samples() {
    let a = decode_wav(&file(1, 1, 8000, 16, &[])).unwrap();
    assert_eq!(a.samples, Some(Vec::new()));
}

#[test]
fn samples_are_put_together_with_their_header() {
    let header = WavHeader { channels: 2, sample_rate: 48000, bits_per_sample: 16, is_float: false };
    assert_eq!(from_ints(header, Err("cut".to_string())), Err("cut".to_string()));
    let a = from_ints(header, Ok(vec![16384, -16384])).unwrap();
    assert_eq!((a.channels, a.sample_rate), (2, 48000));
    assert_eq!(values(&a), vec![0.5, -0.5]);
    assert_eq!(normalize_all(&vec![1], 8), vec![(1.0f32 / 128.0).to_bits()]);
}
