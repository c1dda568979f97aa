use wavescope::playback::{device_request, AudioPlayer, DeviceRequest, PlaybackPosition};
use wavescope::wav::Header;
use wavescope::visualizer::{column_of, draw_waveform, row_of, Segment, WINDOW};

#[test]
fn position_starts_at_zero_and_adds_up() {
    let mut position = PlaybackPosition::new();
    assert_eq!(position.read(), 0);
    position.advance_by(512);
    assert_eq!(position.read(), 512);
    position.advance_by(0);
    assert_eq!(position.read(), 512);
    position.advance_by(1024);
    assert_eq!(position.read(), 1536);
}

#[test]
fn position_stops_at_the_largest_index() {
    let mut position = PlaybackPosition { value: usize::MAX - 3 };
    position.advance_by(10);
    assert_eq!(position.read(), usize::MAX);
    position.advance_by(1);
    assert_eq!(position.read(), usize::MAX);
}

#[test]
fn position_never_moves_back() {
    let mut position = PlaybackPosition::new();
    let mut last = position.read();
    for n in [0usize, 1, 4096, 7, usize::MAX, 3] {
        position.advance_by(n);
        assert!(position.read() >= last);
        last = position.read();
    }
}

#[test]
fn callback_copies_then_fills_with_silence() {
    let mut player = AudioPlayer::new(vec![10, 20, 30, 40, 50]);
    let mut out = [99i16; 3];
    player.callback(&mut out);
    assert_eq!(out, [10, 20, 30]);
    assert_eq!(player.position, 3);
    let mut out = [99i16; 4];
    player.callback(&mut out);
    assert_eq!(out, [40, 50, 0, 0]);
    assert_eq!(player.position, 7);
    let mut out = [99i16; 2];
    player.callback(&mut out);
    assert_eq!(out, [0, 0]);
    assert_eq!(player.position, 9);
    assert_eq!(player.data, vec![10, 20, 30, 40, 50]);
}

#[test]
fn callback_on_an_empty_block_changes_nothing() {
    let mut player = AudioPlayer::new(vec![1, 2]);
    let mut out: [i16; 0] = [];
    player.callback(&mut out);
    assert_eq!(player.position, 0);
}

#[test]
fn block_that_starts_within_the_samples_ends_near_them() {
    let mut player = AudioPlayer::new(vec![7; 10]);
    let mut shared = PlaybackPosition::new();
    let mut last = 0usize;
    while player.position <= player.data.len() {
        let mut out = [0i16; 4];
        player.callback(&mut out);
        shared.advance_by(out.len());
        assert_eq!(shared.read(), player.position);
        assert!(shared.read() >= last);
        assert!(shared.read() <= player.data.len() + out.len());
        last = shared.read();
    }
    assert_eq!(last, 12);
}

#[test]
fn callback_cursor_stops_at_the_largest_index() {
    let mut player = AudioPlayer { data: vec![1, 2, 3], position: usize::MAX - 1 };
    let mut out = [5i16; 3];
    player.callback(&mut out);
    assert_eq!(out, [0, 0, 0]);
    assert_eq!(player.position, usize::MAX);
}

#[test]
fn full_window_spans_the_surface() {
    let samples = vec![0i16; 4096];
    let segments = draw_waveform(&samples, 0, 800, 600);
    assert_eq!(segments.len(), 4095);
    assert_eq!(segments[0], Segment { x1: 0, y1: 300, x2: 0, y2: 300 });
    assert_eq!(segments[4094].x1, 799);
    assert_eq!(segments[4094].x2, 799);
    assert_eq!(segments[2048].x1, 400);
    for pair in segments.windows(2) {
        assert_eq!(pair[0].x2, pair[1].x1);
        assert_eq!(pair[0].y2, pair[1].y1);
    }
}

#[test]
fn nothing_is_drawn_behind_the_last_sample() {
    let samples = vec![5i16; 100];
    assert!(draw_waveform(&samples, 100, 800, 600).is_empty());
    assert!(draw_waveform(&samples, 101, 800, 600).is_empty());
    assert!(draw_waveform(&samples, usize::MAX, 800, 600).is_empty());
    assert!(draw_waveform(&[], 0, 800, 600).is_empty());
    assert!(draw_waveform(&samples, 99, 800, 600).is_empty());
}

#[test]
fn window_is_cut_where_the_samples_end() {
    let samples: Vec<i16> = (0..5000).map(|i| (i % 100) as i16).collect();
    assert_eq!(draw_waveform(&samples, 0, 800, 600).len(), 4095);
    assert_eq!(draw_waveform(&samples, 904, 800, 600).len(), 4095);
    assert_eq!(draw_waveform(&samples, 905, 800, 600).len(), 4094);
    assert_eq!(draw_waveform(&samples, 4990, 800, 600).len(), 9);
    assert_eq!(draw_waveform(&samples, 4998, 800, 600).len(), 1);
}

#[test]
fn segments_follow_the_samples_from_the_position() {
    let samples = vec![0i16, 32767, -32768, 16384, -16384];
    let segments = draw_waveform(&samples, 1, 4096, 600);
    assert_eq!(
        segments,
        vec![
            Segment { x1: 0, y1: 1, x2: 1, y2: 600 },
            Segment { x1: 1, y1: 600, x2: 2, y2: 150 },
            Segment { x1: 2, y1: 150, x2: 3, y2: 450 },
        ]
    );
}

#[test]
fn column_scales_the_index_to_the_width() {
    assert_eq!(column_of(0, 800), 0);
    assert_eq!(column_of(1, 800), 0);
    assert_eq!(column_of(6, 800), 1);
    assert_eq!(column_of(2048, 800), 400);
    assert_eq!(column_of(4095, 800), 799);
    assert_eq!(column_of(4095, 0), 0);
    assert_eq!(column_of(WINDOW - 1, u32::MAX), 4293918719);
}

#[test]
fn row_scales_the_sample_to_half_the_height() {
    assert_eq!(row_of(0, 600), 300);
    assert_eq!(row_of(32767, 600), 1);
    assert_eq!(row_of(-32768, 600), 600);
    assert_eq!(row_of(1, 600), 300);
    assert_eq!(row_of(-1, 600), 300);
    assert_eq!(row_of(110, 600), 299);
    assert_eq!(row_of(-110, 600), 301);
    assert_eq!(row_of(16384, 601), 150);
    assert_eq!(row_of(0, 0), 0);
    assert_eq!(row_of(-32768, u32::MAX), 4294967294);
    assert_eq!(row_of(32767, u32::MAX), 65536);
}

#[test]
fn device_request_follows_the_header() {
    let mut header = Header::default();
    header.sample_rate = 44100;
    header.num_channels = 2;
    header.bits_per_sample = 16;
    assert_eq!(device_request(&header), DeviceRequest { freq: 44100, channels: 2, samples: 16 });
}

#[test]
fn device_request_cuts_wide_values_down() {
    let mut header = Header::default();
    header.sample_rate = 0x8000_0001;
    header.num_channels = 0x0102;
    header.bits_per_sample = 0xFFFF;
    assert_eq!(
        device_request(&header),
        DeviceRequest { freq: -2147483647, channels: 2, samples: 0xFFFF }
    );
}
