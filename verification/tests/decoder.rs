use memo_node::audio::decoder::{
    append_frame, assemble_pcm, decoded_chunk, frames_to_decode, split_bundle, DecoderError,
    FrameOutcome, PcmFormat,
};

#[test]
fn test_opus_decoder_creation() {
    let format = PcmFormat::new(16000);
    assert!(format.is_ok());
}

#[test]
fn test_frame_size() {
    let format = PcmFormat::new(16000).unwrap();
    // 20ms at 16kHz = 320 samples
    assert_eq!(format.frame_size_samples(), 320);
    assert_eq!(format.sample_rate(), 16000);
}

#[test]
fn other_sample_rates_are_refused() {
    assert_eq!(PcmFormat::new(8000), Err(DecoderError::UnsupportedSampleRate));
    assert_eq!(PcmFormat::new(48000), Err(DecoderError::UnsupportedSampleRate));
    assert_eq!(PcmFormat::new(0), Err(DecoderError::UnsupportedSampleRate));
    assert_eq!(PcmFormat::new(16001), Err(DecoderError::UnsupportedSampleRate));
}

#[test]
fn a_bundle_of_two_frames_is_split_in_order() {
    let bundle = [0x00, 0x02, 0x03, 0xA1, 0xA2, 0xA3, 0x02, 0xB1, 0xB2];
    assert_eq!(split_bundle(&bundle), vec![vec![0xA1, 0xA2, 0xA3], vec![0xB1, 0xB2]]);
}

#[test]
fn a_frame_that_overruns_the_bundle_ends_the_framing() {
    let bundle = [0x00, 0x02, 0x03, 0xA1, 0xA2, 0xA3, 0x05, 0xB1, 0xB2];
    assert_eq!(split_bundle(&bundle), vec![vec![0xA1, 0xA2, 0xA3]]);
}

#[test]
fn an_absurd_frame_count_gives_nothing() {
    assert!(split_bundle(&[0x00, 0xFF, 0x01, 0x02]).is_empty());
    assert!(split_bundle(&[0x00, 11, 0x01, 0x02]).is_empty());
}

#[test]
fn short_or_empty_bundles_give_nothing() {
    assert!(split_bundle(&[]).is_empty());
    assert!(split_bundle(&[0x07]).is_empty());
    assert!(split_bundle(&[0x07, 0x00]).is_empty());
    assert!(split_bundle(&[0x07, 0x00, 0x01, 0xAA]).is_empty());
    assert!(split_bundle(&[0x07, 0x01]).is_empty());
}

#[test]
fn the_bundle_index_is_not_looked_at() {
    let frames = vec![vec![9u8, 8, 7]];
    assert_eq!(split_bundle(&[0x00, 1, 3, 9, 8, 7]), frames);
    assert_eq!(split_bundle(&[0xFF, 1, 3, 9, 8, 7]), frames);
}

#[test]
fn frames_of_size_zero_are_skipped_but_use_up_a_slot() {
    // Three slots: empty, one byte, two bytes.
    assert_eq!(split_bundle(&[0, 3, 0, 1, 0xAA, 2, 0xB1, 0xB2]), vec![vec![0xAA], vec![0xB1, 0xB2]]);
    // Two slots only: the empty one counts, so the last frame is not read.
    assert_eq!(split_bundle(&[0, 2, 0, 1, 0xAA, 2, 0xB1, 0xB2]), vec![vec![0xAA]]);
}

#[test]
fn bytes_behind_the_announced_frames_are_left_alone() {
    assert_eq!(split_bundle(&[0, 1, 1, 0xAA, 1, 0xBB]), vec![vec![0xAA]]);
}

#[test]
fn ten_frames_are_the_most() {
    let mut bundle = vec![0u8, 10];
    for i in 0..10u8 {
        bundle.push(1);
        bundle.push(i);
    }
    let frames = split_bundle(&bundle);
    assert_eq!(frames.len(), 10);
    for i in 0..10u8 {
        assert_eq!(frames[i as usize], vec![i]);
    }
}

#[test]
fn a_frame_may_fill_the_bundle_to_its_last_byte() {
    let mut bundle = vec![0u8, 1, 255];
    bundle.extend(std::iter::repeat(0x5A).take(255));
    let frames = split_bundle(&bundle);
    assert_eq!(frames.len(), 1);
    assert_eq!(frames[0].len(), 255);
    bundle.pop();
    assert!(split_bundle(&bundle).is_empty());
}

#[test]
fn every_truncation_frames_to_a_prefix() {
    let bundle = [3u8, 4, 2, 10, 11, 0, 3, 20, 21, 22, 1, 30, 99];
    let whole = split_bundle(&bundle);
    assert_eq!(whole, vec![vec![10, 11], vec![20, 21, 22], vec![30]]);
    for kept in 0..=bundle.len() {
        let cut = split_bundle(&bundle[..kept]);
        assert!(cut.len() <= whole.len());
        assert_eq!(cut[..], whole[..cut.len()]);
    }
}

#[test]
fn pcm_is_the_concatenation_of_what_decoded() {
    let outcomes = vec![
        FrameOutcome::Decoded { buffer: vec![1, 2, 3, 0, 0], samples: 3 },
        FrameOutcome::Failed,
        FrameOutcome::Decoded { buffer: vec![4, 5], samples: 2 },
        FrameOutcome::Decoded { buffer: vec![6, 7], samples: 0 },
        FrameOutcome::Decoded { buffer: vec![8, 9], samples: 7 },
    ];
    assert_eq!(assemble_pcm(&outcomes), vec![1, 2, 3, 4, 5, 8, 9]);
    assert_eq!(decoded_chunk(&outcomes), Some(vec![1, 2, 3, 4, 5, 8, 9]));
}

#[test]
fn a_bundle_without_pcm_gives_no_chunk() {
    assert_eq!(assemble_pcm(&Vec::new()), Vec::<i16>::new());
    assert_eq!(decoded_chunk(&Vec::new()), None);
    let failed = vec![FrameOutcome::Failed, FrameOutcome::Decoded { buffer: vec![1], samples: 0 }];
    assert_eq!(decoded_chunk(&failed), None);
}

#[test]
fn a_frame_is_appended_behind_what_is_there() {
    let mut pcm = vec![1i16, 2];
    append_frame(&mut pcm, &FrameOutcome::Decoded { buffer: vec![3, 4, 5], samples: 2 });
    assert_eq!(pcm, vec![1, 2, 3, 4]);
    append_frame(&mut pcm, &FrameOutcome::Failed);
    assert_eq!(pcm, vec![1, 2, 3, 4]);
}

#[test]
fn pcm_of_the_first_outcomes_is_a_prefix() {
    let all = vec![
        FrameOutcome::Decoded { buffer: vec![1, 2], samples: 2 },
        FrameOutcome::Failed,
        FrameOutcome::Decoded { buffer: vec![3], samples: 1 },
    ];
    let whole = assemble_pcm(&all);
    let first = vec![FrameOutcome::Decoded { buffer: vec![1, 2], samples: 2 }, FrameOutcome::Failed];
    let part = assemble_pcm(&first);
    assert_eq!(part[..], whole[..part.len()]);
}

#[test]
fn bundles_are_decoded_only_while_recording() {
    let bundle = [0x00, 0x01, 0x02, 0xAA, 0xBB];
    assert_eq!(frames_to_decode(true, &bundle), vec![vec![0xAA, 0xBB]]);
    assert!(frames_to_decode(false, &bundle).is_empty());
}
