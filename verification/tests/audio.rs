use rigg_voice::audio::{
    frames, mix_file, normalize, overlap_samples, resample_to_16k, resampled_len, window_samples,
    Mixing, Resampling, Tap,
};

fn check_resampling(len: usize, rate: u32) {
    let ratio = 16000.0 / rate as f32;
    let out_len = (len as f32 * ratio) as usize;
    assert_eq!(resampled_len(len, rate), out_len, "length of {} at {}", len, rate);
    let taps = match resample_to_16k(len, rate) {
        Resampling::Taps(taps) => taps,
        Resampling::Copy => panic!("{} is not the target rate", rate),
    };
    assert_eq!(taps.len(), out_len);
    for i in 0..out_len {
        let src = i as f32 / ratio;
        let idx = src as usize;
        let frac = src - idx as f32;
        let left = if idx < len { Some(idx) } else { None };
        let right = if idx + 1 < len { Some(idx + 1) } else { None };
        assert_eq!(taps[i], Tap { left, right, frac: frac.to_bits() }, "tap {} of {} at {}", i, len, rate);
    }
}

#[test]
fn resampling_agrees_with_single_precision() {
    for rate in [1, 3, 999, 7999, 8000, 11025, 15999, 16001, 22050, 32000, 44100, 48000, 96000, 192000] {
        for len in [1, 2, 3, 10, 441, 1000, 4410] {
            if len as u64 * 16000 / (rate as u64) < 200_000 {
                check_resampling(len, rate);
            }
        }
    }
}

#[test]
fn resampling_a_second_of_audio() {
    check_resampling(44100, 44100);
    check_resampling(48000, 48000);
    assert_eq!(resampled_len(48000, 48000), 16000);
    assert_eq!(resampled_len(44100, 44100), 16000);
    assert_eq!(resampled_len(8000, 8000), 16000);
}

#[test]
fn resampling_at_extreme_rates() {
    for rate in [16_777_215, 16_777_217, 33_554_435, 2_147_483_649, u32::MAX] {
        check_resampling(3_000_000, rate);
    }
}

#[test]
fn lengths_beyond_the_exact_range() {
    for rate in [1u32, 7, 44100, 48000, 16_777_217, u32::MAX] {
        for len in [16_777_217usize, 33_554_435, 1 << 40, (1 << 40) + 12345] {
            let ratio = 16000.0 / rate as f32;
            assert_eq!(resampled_len(len, rate), (len as f32 * ratio) as usize);
        }
    }
}

#[test]
fn target_rate_is_copied() {
    assert_eq!(resample_to_16k(123, 16000), Resampling::Copy);
    assert_eq!(resampled_len(123, 16000), 123);
}

#[test]
fn no_audio_stays_no_audio() {
    assert_eq!(resample_to_16k(0, 0), Resampling::Taps(Vec::new()));
    assert_eq!(resample_to_16k(0, 44100), Resampling::Taps(Vec::new()));
    assert_eq!(resampled_len(0, 0), 0);
}

#[test]
fn half_rate_interpolates_halfway() {
    match resample_to_16k(2, 8000) {
        Resampling::Taps(t) => {
            assert_eq!(t.len(), 4);
            assert_eq!(t[0], Tap { left: Some(0), right: Some(1), frac: 0 });
            assert_eq!(t[1], Tap { left: Some(0), right: Some(1), frac: 0.5f32.to_bits() });
            assert_eq!(t[2], Tap { left: Some(1), right: None, frac: 0 });
            assert_eq!(t[3], Tap { left: Some(1), right: None, frac: 0.5f32.to_bits() });
        }
        Resampling::Copy => panic!("not a copy"),
    }
}

#[test]
fn windows_agree_with_single_precision() {
    for rate in [0u32, 1, 2, 3, 8000, 16000, 22050, 44100, 48000, 5_592_405, 5_592_407, 11_184_813, 16_777_217, 33_554_433, u32::MAX - 1, u32::MAX] {
        assert_eq!(window_samples(rate), (8.0f32 * rate as f32) as usize);
        assert_eq!(overlap_samples(rate), (1.5f32 * rate as f32) as usize);
        assert!(overlap_samples(rate) <= window_samples(rate));
    }
}

#[test]
fn window_and_overlap_of_common_rates() {
    assert_eq!(window_samples(48000), 384_000);
    assert_eq!(overlap_samples(48000), 72_000);
    assert_eq!(window_samples(44100), 352_800);
    assert_eq!(overlap_samples(44100), 66_150);
    assert_eq!(overlap_samples(11025), 16_537);
}

#[test]
fn frames_cover_the_samples() {
    assert_eq!(frames(6, 2), vec![(0, 2), (2, 4), (4, 6)]);
    assert_eq!(frames(5, 2), vec![(0, 2), (2, 4), (4, 5)]);
    assert_eq!(frames(3, 1), vec![(0, 1), (1, 2), (2, 3)]);
    assert_eq!(frames(3, 8), vec![(0, 3)]);
    assert_eq!(frames(0, 2), Vec::new());
}

#[test]
fn one_channel_needs_no_mixing() {
    assert_eq!(mix_file(4, 1), Mixing::Copy);
    assert_eq!(mix_file(4, 2), Mixing::Frames(vec![(0, 2), (2, 4)]));
}

#[test]
fn integers_become_full_scale_numbers() {
    for bits in [8u16, 16, 24, 32] {
        let max = (1i64 << (bits - 1)) as f32;
        for v in [0i32, 1, -1, 2, 127, -128, 32767, -32768, 8_388_607, -8_388_608, 16_777_217, -16_777_219, i32::MAX, i32::MIN] {
            assert_eq!(normalize(v, bits), (v as f32 / max).to_bits(), "{} of {} bits", v, bits);
        }
    }
    assert_eq!(f32::from_bits(normalize(16384, 16)), 0.5);
    assert_eq!(f32::from_bits(normalize(-32768, 16)), -1.0);
}

#[test]
fn appended_audio_keeps_earlier_samples() {
    for rate in [32000, 44100, 48000, 96000, 192000] {
        for (n, m) in [(1, 1), (2, 1), (3, 5), (441, 1), (4410, 3000), (48000, 1)] {
            match (resample_to_16k(n, rate), resample_to_16k(n + m, rate)) {
                (Resampling::Taps(a), Resampling::Taps(b)) => {
                    assert!(a.len() <= b.len());
                    assert_eq!(a, b[..a.len()]);
                    assert!(a.iter().all(|t| t.left.is_some()));
                }
                _ => panic!("not a copy"),
            }
        }
    }
}
