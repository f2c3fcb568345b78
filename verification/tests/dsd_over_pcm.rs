use lumelo::alsa::{AlsaDsdFormat, DopPcmFormat};
use lumelo::dop::{DopFramer, DSD_SILENCE_BYTE};
use lumelo::dsd_pcm::PcmFallbackFramer;

#[test]
fn dop_frame_interleaves_channels_with_marker() {
    let mut framer = DopFramer::new(DopPcmFormat::S24_3Le, 2);
    let out = framer.push(&[1, 2, 3, 4]);
    assert_eq!(out, vec![1, 3, 0x05, 2, 4, 0x05]);
    assert!(framer.finish().is_empty());
}

#[test]
fn dop_markers_alternate_between_frames() {
    let mut framer = DopFramer::new(DopPcmFormat::S24_3Le, 2);
    let out = framer.push(&[1, 2, 3, 4, 5, 6, 7, 8]);
    assert_eq!(out, vec![1, 3, 0x05, 2, 4, 0x05, 5, 7, 0xFA, 6, 8, 0xFA]);
}

#[test]
fn dop_output_does_not_depend_on_block_sizes() {
    let data: Vec<u8> = (0u8..37).collect();
    let mut whole = DopFramer::new(DopPcmFormat::S32Le, 2);
    let mut expected = whole.push(&data);
    expected.extend(whole.finish());

    for block in 1..9usize {
        let mut framer = DopFramer::new(DopPcmFormat::S32Le, 2);
        let mut out = Vec::new();
        for chunk in data.chunks(block) {
            out.extend(framer.push(chunk));
        }
        out.extend(framer.finish());
        assert_eq!(out, expected, "block size {block}");
    }
}

#[test]
fn dop_partial_block_waits_for_the_rest() {
    let mut framer = DopFramer::new(DopPcmFormat::S24Le, 2);
    assert!(framer.push(&[1, 2]).is_empty());
    assert_eq!(framer.push(&[3, 4]), vec![1, 3, 0x05, 0, 2, 4, 0x05, 0]);
}

#[test]
fn dop_finish_pads_last_frame_with_silence() {
    let mut framer = DopFramer::new(DopPcmFormat::S32Le, 2);
    assert!(framer.push(&[1, 2, 3]).is_empty());
    assert_eq!(
        framer.finish(),
        vec![1, 3, 0x05, 0, 2, DSD_SILENCE_BYTE, 0x05, 0]
    );
}

#[test]
fn dop_finish_keeps_marker_sequence() {
    let mut framer = DopFramer::new(DopPcmFormat::S24Le, 1);
    assert_eq!(framer.push(&[1, 2, 3]), vec![1, 2, 0x05, 0]);
    assert_eq!(framer.finish(), vec![3, 0x69, 0xFA, 0]);
}

#[test]
fn native_packing_widens_each_byte() {
    assert_eq!(AlsaDsdFormat::U8.pack_native(&[1, 2]), vec![1, 2]);
    assert_eq!(AlsaDsdFormat::U32Le.pack_native(&[0xA5, 0x5A]), vec![0xA5, 0, 0, 0, 0x5A, 0, 0, 0]);
    assert!(AlsaDsdFormat::U16Be.pack_native(&[]).is_empty());
}

#[test]
fn pcm_fallback_counts_bit_balance_per_byte() {
    let mut framer = PcmFallbackFramer::new(1, 1);
    assert_eq!(framer.push(&[0xFF, 0x00, 0xF0, 0x01]), vec![8, -8, 0, -6]);
    assert!(framer.finish().is_empty());
}

#[test]
fn pcm_fallback_reads_interleaved_channels() {
    let mut framer = PcmFallbackFramer::new(2, 2);
    assert_eq!(framer.push(&[0xFF, 0x00, 0x0F, 0x01]), vec![8, -14]);
}

#[test]
fn pcm_fallback_does_not_depend_on_block_sizes() {
    let data: Vec<u8> = (0u8..=200).map(|value| value.wrapping_mul(37)).collect();
    let mut whole = PcmFallbackFramer::new(2, 8);
    let mut expected = whole.push(&data);
    expected.extend(whole.finish());
    for block in [1usize, 3, 16, 17, 64] {
        let mut framer = PcmFallbackFramer::new(2, 8);
        let mut out = Vec::new();
        for chunk in data.chunks(block) {
            out.extend(framer.push(chunk));
        }
        out.extend(framer.finish());
        assert_eq!(out, expected, "block size {block}");
    }
}

#[test]
fn pcm_fallback_pads_last_frame_with_silence() {
    let mut framer = PcmFallbackFramer::new(1, 2);
    assert!(framer.push(&[0xFF]).is_empty());
    assert_eq!(framer.finish(), vec![8]);
}
