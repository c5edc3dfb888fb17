use life_canvas::animation::AnimationRecorder;
use life_canvas::framebuffer::{Color, FrameBuffer};

#[test]
fn recorder_accumulates_frames() {
    let bg = Color::new(0, 0, 0);
    let fb = FrameBuffer::new(3, 2, bg).unwrap();
    let mut rec = AnimationRecorder::new(3, 2);
    rec.push(fb.snapshot());
    rec.push(fb.snapshot());
    assert_eq!(rec.frames.len(), 2);
    assert_eq!(rec.frames[0].len(), 6);
}

#[test]
fn pushed_snapshot_is_independent_of_later_drawing() {
    let bg = Color::new(0, 0, 0);
    let mut fb = FrameBuffer::new(3, 2, bg).unwrap();
    let mut rec = AnimationRecorder::new(3, 2);
    rec.push(fb.snapshot());
    fb.set_color(Color::new(255, 0, 0));
    fb.set_pixel(0, 0);
    assert_eq!(rec.frames[0][0], bg);
}

#[test]
fn encode_round_trip_preserves_every_frame() {
    let bg = Color::new(20, 40, 60);
    let red = Color::new(255, 0, 0);
    let green = Color::new(0, 255, 0);
    let mut fb = FrameBuffer::new(4, 3, bg).unwrap();
    let mut rec = AnimationRecorder::new(4, 3);

    // Frame 1: plain background.
    rec.push(fb.snapshot());
    // Frame 2: one red pixel.
    fb.set_color(red);
    fb.set_pixel(1, 2);
    rec.push(fb.snapshot());
    // Frame 3: the red pixel plus a green one.
    fb.set_color(green);
    fb.set_pixel(3, 0);
    rec.push(fb.snapshot());

    let sources: Vec<Vec<Color>> = rec.frames.clone();
    let bytes = rec.encode(10).unwrap();

    let mut options = gif::DecodeOptions::new();
    options.set_color_output(gif::ColorOutput::RGBA);
    let mut decoder = options.read_info(&bytes[..]).unwrap();
    assert_eq!(decoder.width(), 4);
    assert_eq!(decoder.height(), 3);

    let mut decoded = 0;
    while let Some(frame) = decoder.read_next_frame().unwrap() {
        assert_eq!(frame.width, 4);
        assert_eq!(frame.height, 3);
        assert_eq!(frame.delay, 10);
        let source = &sources[decoded];
        assert_eq!(frame.buffer.len(), source.len() * 4);
        for (k, &px) in source.iter().enumerate() {
            assert_eq!(frame.buffer[4 * k], px.r);
            assert_eq!(frame.buffer[4 * k + 1], px.g);
            assert_eq!(frame.buffer[4 * k + 2], px.b);
        }
        decoded += 1;
    }
    assert_eq!(decoded, 3);
}

#[test]
fn encode_without_frames_yields_empty_animation() {
    let rec = AnimationRecorder::new(2, 2);
    let bytes = rec.encode(5).unwrap();
    let mut options = gif::DecodeOptions::new();
    options.set_color_output(gif::ColorOutput::RGBA);
    let mut decoder = options.read_info(&bytes[..]).unwrap();
    assert_eq!(decoder.width(), 2);
    assert!(decoder.read_next_frame().unwrap().is_none());
}
