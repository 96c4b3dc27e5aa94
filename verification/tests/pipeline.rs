use gifski::color::{RGB8, RGBA8};
use gifski::diff::{DiffMaker, DiffStep, Differ};
use gifski::encoder::RustEncoder;
use gifski::error::Error;
use gifski::img::ImgVec;
use gifski::prepare::{resize_frame, FrameSource, InputFrame};
use gifski::progress::{NoProgress, ProgressReporter};
use gifski::quantize::quantize_message;
use gifski::remap::Remapper;
use gifski::screen::DisposalMethod;
use gifski::settings::{Repeat, Settings};
use gifski::writer::FrameWriter;
use gifski::Writer;

fn copy(img: &ImgVec<RGBA8>) -> ImgVec<RGBA8> {
    ImgVec::new(img.buf.clone(), img.width, img.height).unwrap()
}

struct StopAfter {
    left: usize,
    told: usize,
}

impl ProgressReporter for StopAfter {
    fn increase(&mut self) -> bool {
        self.told += 1;
        if self.left == 0 {
            return false;
        }
        self.left -= 1;
        true
    }
}

/// Runs the stages of the encoder one after the other, and holds the
/// screen of the remapper against what `gif_dispose` makes of the frames.
fn encode_with<R: ProgressReporter>(
    frames: &[(ImgVec<RGBA8>, f64)],
    writer: &Writer,
    reporter: &mut R,
) -> Result<Vec<u8>, Error> {
    let s = writer.settings;
    let mut resized = Vec::new();
    for (i, (img, pts)) in frames.iter().enumerate() {
        let input = InputFrame {
            frame: FrameSource::Pixels(copy(img)),
            presentation_timestamp: (pts * 1_000_000.).round() as i64,
            frame_index: i,
        };
        let (index, r) = resize_frame(input, &s)?;
        assert_eq!(index, i);
        resized.push(r);
    }
    let mut resized = resized.into_iter();
    let first = resized.next().ok_or(Error::NoFrames)?;
    let mut maker = DiffMaker::new(&first, s.motion_quality)?;
    let mut diffs = Vec::new();
    let mut next = Some(first);
    loop {
        match maker.step(next)? {
            DiffStep::Done => break,
            DiffStep::NotYet => {},
            DiffStep::Frame(m) => diffs.push(m),
        }
        next = resized.next();
    }
    let to_quantize = Differ::run(diffs)?;
    let mut remapper: Option<Remapper> = None;
    let mut check: Option<gif_dispose::Screen> = None;
    let mut fw = FrameWriter::new(s.s);
    let mut out = Vec::new();
    let mut expected_index = 0;
    for qm in to_quantize {
        let mut rm = quantize_message(qm, &s, &writer.fixed_colors)?;
        rm.remap.set_dithering_level(f32::from(s.dithering_level()) / 6000.).unwrap();
        if remapper.is_none() {
            remapper = Some(Remapper::new(rm.width, rm.height)?);
            check = Some(gif_dispose::Screen::new(rm.width, rm.height, None));
        }
        let r = remapper.as_mut().unwrap();
        let fm = r.remap_frame(rm)?;
        assert_eq!(fm.frame_index, expected_index);
        expected_index += 1;

        let pal: Vec<rgb::RGB8> = fm.frame.pal.iter().map(|c| rgb::RGB8::new(c.r, c.g, c.b)).collect();
        let dispose = match fm.frame.dispose {
            DisposalMethod::Keep => gif::DisposalMethod::Keep,
            DisposalMethod::Background => gif::DisposalMethod::Background,
        };
        let c = check.as_mut().unwrap();
        c.blit(
            Some(&pal),
            dispose,
            fm.frame.left,
            fm.frame.top,
            imgref::ImgRef::new(&fm.frame.image.buf, fm.frame.image.width, fm.frame.image.height),
            fm.frame.transparent_index,
        )
        .unwrap();
        let shown: Vec<RGBA8> =
            c.pixels_rgba().pixels().map(|p| RGBA8::new(p.r, p.g, p.b, p.a)).collect();
        assert_eq!(shown, r.screen.pixels.buf);

        let lzw = RustEncoder::compress_frame(fm.frame, &s)?;
        out.extend(fw.write_frame(&lzw, fm.end_pts, fm.screen_width, fm.screen_height)?);
        fw.report(fm.ordinal_frame_number, reporter)?;
    }
    out.extend(fw.finish()?);
    Ok(out)
}

fn encode(frames: &[(ImgVec<RGBA8>, f64)], settings: Settings) -> Vec<u8> {
    let writer = gifski::new(settings, 4).unwrap();
    encode_with(frames, &writer, &mut NoProgress {}).unwrap()
}

struct Decoded {
    delay: u16,
    dispose: gif::DisposalMethod,
    left: u16,
    top: u16,
    width: u16,
    height: u16,
    palette_len: usize,
    screen: Vec<RGBA8>,
}

fn decode(mut gif_data: &[u8]) -> (usize, usize, Vec<Decoded>) {
    let mut gif_opts = gif::DecodeOptions::new();
    gif_opts.set_color_output(gif::ColorOutput::Indexed);
    let mut decoder = gif_opts.read_info(&mut gif_data).unwrap();
    let mut screen = gif_dispose::Screen::new_decoder(&decoder);
    let (w, h) = (decoder.width() as usize, decoder.height() as usize);
    let mut frames = Vec::new();
    while let Some(frame) = decoder.read_next_frame().unwrap() {
        screen.blit_frame(frame).unwrap();
        frames.push(Decoded {
            delay: frame.delay,
            dispose: frame.dispose,
            left: frame.left,
            top: frame.top,
            width: frame.width,
            height: frame.height,
            palette_len: frame.palette.as_ref().unwrap().len() / 3,
            screen: screen.pixels_rgba().pixels().map(|p| RGBA8::new(p.r, p.g, p.b, p.a)).collect(),
        });
    }
    (w, h, frames)
}

fn image_diff(a: &[RGBA8], b: &[RGBA8]) -> f64 {
    assert_eq!(a.len(), b.len());
    let sum: u64 = a
        .iter()
        .zip(b.iter())
        .map(|(a, b)| {
            if a.a != b.a {
                return 300000;
            }
            if a.a == 0 {
                return 0;
            }
            let d = |x: u8, y: u8| (i64::from(x) - i64::from(y)).pow(2) as u64;
            d(a.r, b.r) * 2 + d(a.g, b.g) * 3 + d(a.b, b.b)
        })
        .sum();
    sum as f64 / (a.len() * 3) as f64
}

/// A frame with a coloured square on a plain ground; every `n` gives
/// another picture.
fn picture(n: usize) -> ImgVec<RGBA8> {
    let (w, h) = (24usize, 16usize);
    let ground = RGBA8::new(20, (n * 23 % 200) as u8, 200, 255);
    let square = RGBA8::new(250, 240, (n * 37 % 256) as u8, 255);
    let mut buf = vec![ground; w * h];
    let left = (n * 3) % (w - 6);
    for y in 4..10 {
        for x in left..left + 6 {
            buf[y * w + x] = square;
        }
    }
    ImgVec::new(buf, w, h).unwrap()
}

#[test]
fn n_frames() {
    for num_frames in 1..=11usize {
        let frames: Vec<_> = (0..num_frames)
            .map(|n| (picture(n), if num_frames == 1 { 0.1 } else { n as f64 / 10. }))
            .collect();
        let out = encode(&frames, Settings::default());
        let (w, h, decoded) = decode(&out);
        assert_eq!((w, h), (24, 16));
        assert_eq!(decoded.len(), num_frames);
        let mut n = 0;
        let mut delay = 0;
        for d in &decoded {
            delay += d.delay as usize;
            let next_n = delay / 10;
            while n < next_n && n < num_frames {
                let diff = image_diff(&frames[n].0.buf, &d.screen);
                assert!(diff <= 0.8, "{diff} diff, frame {n} of {num_frames}");
                n += 1;
            }
        }
        assert_eq!(n, num_frames);
    }
}

#[test]
fn all_dupe_frames() {
    let frames = vec![(picture(1), 0.1), (picture(1), 1.2), (picture(1), 1.3)];
    let out = encode(&frames, Settings::default());
    let (_, _, decoded) = decode(&out);
    let delays: Vec<u16> = decoded.iter().map(|d| d.delay).collect();
    assert_eq!(delays, [130]);
    assert!(image_diff(&frames[0].0.buf, &decoded[0].screen) <= 0.);
}

#[test]
fn all_but_one_dupe_frames() {
    let frames = vec![(picture(0), 0.0), (picture(1), 1.2), (picture(1), 1.3)];
    let out = encode(&frames, Settings::default());
    let (_, _, decoded) = decode(&out);
    let delays: Vec<u16> = decoded.iter().map(|d| d.delay).collect();
    assert_eq!(delays, [120, 20]);
    assert!(image_diff(&frames[0].0.buf, &decoded[0].screen) <= 1.7);
    assert!(image_diff(&frames[1].0.buf, &decoded[1].screen) <= 1.7);
}

#[test]
fn single_frame_has_a_delay() {
    let out = encode(&[(picture(3), 0.1)], Settings::default());
    let (_, _, decoded) = decode(&out);
    assert_eq!(decoded.len(), 1);
    assert!(decoded[0].delay >= 2);
    // the first frame is never cropped
    assert_eq!((decoded[0].left, decoded[0].top), (0, 0));
    assert_eq!((decoded[0].width, decoded[0].height), (24, 16));
}

#[test]
fn eleven_frames_keep_their_pictures() {
    let frames: Vec<_> = (0..11).map(|n| (picture(n), n as f64 / 10.)).collect();
    let out = encode(&frames, Settings::default());
    let (_, _, decoded) = decode(&out);
    assert_eq!(decoded.len(), 11);
    for (n, d) in decoded.iter().enumerate() {
        assert!(image_diff(&frames[n].0.buf, &d.screen) <= 0.8);
        assert_eq!(d.delay, 10);
    }
    assert_eq!(out[out.len() - 1], 0x3B);
    assert_eq!(&out[..6], b"GIF89a");
}

#[test]
fn palettes_are_powers_of_two() {
    let frames: Vec<_> = (0..6).map(|n| (picture(n), n as f64 / 10.)).collect();
    let out = encode(&frames, Settings::default());
    let (_, _, decoded) = decode(&out);
    for d in &decoded {
        assert!(d.palette_len >= 2 && d.palette_len <= 256);
        assert!(d.palette_len.is_power_of_two());
    }
}

#[test]
fn matte_lies_under_half_transparent_pixels() {
    let frame = ImgVec::new(vec![RGBA8::new(255, 255, 255, 64); 64], 8, 8).unwrap();
    let mut writer = gifski::new(Settings::default(), 2).unwrap();
    writer.set_matte_color(RGB8::new(0, 0, 0));
    let out = encode_with(&[(frame, 0.1)], &writer, &mut NoProgress {}).unwrap();
    let (_, _, decoded) = decode(&out);
    assert_eq!(decoded.len(), 1);
    for p in &decoded[0].screen {
        assert_eq!(p.a, 255);
        for c in [p.r, p.g, p.b] {
            assert!((i32::from(c) - 64).abs() <= 2, "{c}");
        }
    }
}

#[test]
fn frame_before_a_hole_is_cleared() {
    let a = ImgVec::new(vec![RGBA8::new(200, 10, 10, 255); 64], 8, 8).unwrap();
    let mut holed = vec![RGBA8::new(200, 10, 10, 255); 64];
    holed[9] = RGBA8::new(0, 0, 0, 0);
    let b = ImgVec::new(holed, 8, 8).unwrap();
    let out = encode(&[(copy(&a), 0.0), (copy(&b), 0.5)], Settings::default());
    let (_, _, decoded) = decode(&out);
    assert_eq!(decoded.len(), 2);
    assert_eq!(decoded[0].dispose, gif::DisposalMethod::Background);
    assert_eq!(decoded[1].screen[9].a, 0);
    assert_eq!(decoded[1].screen[10].a, 255);
}

#[test]
fn abort_stops_the_writer() {
    let frames: Vec<_> = (0..8).map(|n| (picture(n), n as f64 / 10.)).collect();
    let writer = gifski::new(Settings::default(), 4).unwrap();
    for k in 0..4 {
        let mut reporter = StopAfter { left: k, told: 0 };
        let res = encode_with(&frames, &writer, &mut reporter);
        assert!(matches!(res, Err(Error::Aborted)));
        assert_eq!(reporter.told, k + 1);
    }
    let mut reporter = StopAfter { left: 8, told: 0 };
    assert!(encode_with(&frames, &writer, &mut reporter).is_ok());
    assert_eq!(reporter.told, 8);
}

#[test]
fn no_frames_is_an_error() {
    let writer = gifski::new(Settings::default(), 4).unwrap();
    assert!(matches!(encode_with(&[], &writer, &mut NoProgress {}), Err(Error::NoFrames)));
}

#[test]
fn frame_of_another_size_is_refused() {
    let small = ImgVec::new(vec![RGBA8::new(1, 2, 3, 255); 4], 2, 2).unwrap();
    let writer = gifski::new(Settings::default(), 4).unwrap();
    let res = encode_with(&[(picture(0), 0.0), (small, 0.1)], &writer, &mut NoProgress {});
    assert!(matches!(res, Err(Error::WrongSize(_))));
}

#[test]
fn settings_resize_the_frames() {
    let settings = Settings { width: Some(12), height: None, ..Settings::default() };
    let frames: Vec<_> = (0..3).map(|n| (picture(n), n as f64 / 10.)).collect();
    let out = encode(&frames, settings);
    let (w, h, decoded) = decode(&out);
    assert_eq!((w, h), (12, 8));
    assert_eq!(decoded.len(), 3);
}

#[test]
fn lossy_and_fast_settings_encode() {
    let frames: Vec<_> = (0..5).map(|n| (picture(n), n as f64 / 10.)).collect();
    let mut writer = gifski::new(
        Settings { quality: 60, fast: true, repeat: Repeat::Finite(2), ..Settings::default() },
        4,
    )
    .unwrap();
    writer.add_fixed_color(RGB8::new(250, 240, 0));
    writer.set_extra_effort(false);
    writer.set_lossy_quality(40);
    writer.set_motion_quality(70);
    let out = encode_with(&frames, &writer, &mut NoProgress {}).unwrap();
    let (_, _, decoded) = decode(&out);
    assert_eq!(decoded.len(), 5);
    for (n, d) in decoded.iter().enumerate() {
        assert!(image_diff(&frames[n].0.buf, &d.screen) <= 400.);
    }
    let mut extra = gifski::new(Settings { quality: 40, ..Settings::default() }, 4).unwrap();
    extra.set_extra_effort(true);
    let out = encode_with(&frames, &extra, &mut NoProgress {}).unwrap();
    assert_eq!(decode(&out).2.len(), 5);
}

#[test]
fn quantizer_refuses_an_empty_frame() {
    let writer = gifski::new(Settings::default(), 1).unwrap();
    let msg = gifski::diff::QuantizeMessage {
        ordinal_frame_number: 1,
        frame_index: 0,
        first_frame_has_transparency: false,
        image: ImgVec::new(Vec::new(), 0, 0).unwrap(),
        importance_map: Vec::new(),
        prev_frame_keeps: false,
        dispose: DisposalMethod::Keep,
        end_pts: 10_000,
        has_next_frame: false,
    };
    assert!(matches!(
        quantize_message(msg, &writer.settings, &writer.fixed_colors),
        Err(Error::Quant(_))
    ));
}

#[test]
fn remapper_refuses_sizes_that_a_gif_cannot_hold() {
    assert!(matches!(Remapper::new(0, 5), Err(Error::WrongSize(_))));
    assert!(matches!(Remapper::new(5, 65536), Err(Error::WrongSize(_))));
    assert!(Remapper::new(1, 65535).is_ok());
}

#[test]
fn frame_with_a_repeated_time_is_dropped() {
    let frames = vec![(picture(0), 0.0), (picture(1), 0.5), (picture(2), 0.5)];
    let out = encode(&frames, Settings::default());
    let (_, _, decoded) = decode(&out);
    let delays: Vec<u16> = decoded.iter().map(|d| d.delay).collect();
    assert_eq!(delays, [50, 50]);
    assert!(image_diff(&frames[1].0.buf, &decoded[1].screen) <= 1.7);
    // in the middle of the frames too
    let frames = vec![(picture(0), 0.0), (picture(1), 0.5), (picture(2), 0.5), (picture(3), 0.8)];
    let mut seen = StopAfter { left: 100, told: 0 };
    let writer = gifski::new(Settings::default(), 4).unwrap();
    let out = encode_with(&frames, &writer, &mut seen).unwrap();
    let (_, _, decoded) = decode(&out);
    let delays: Vec<u16> = decoded.iter().map(|d| d.delay).collect();
    assert_eq!(delays, [50, 30, 30]);
    // the dropped frame is counted all the same
    assert_eq!(seen.told, 4);
}

#[test]
fn diff_maker_counts_a_dropped_frame() {
    let s = gifski::new(Settings::default(), 1).unwrap().settings;
    let frame = |n: usize, pts: i64| {
        let input = InputFrame {
            frame: FrameSource::Pixels(picture(n)),
            presentation_timestamp: pts,
            frame_index: n,
        };
        resize_frame(input, &s).unwrap().1
    };
    let first = frame(0, 200_000);
    let mut maker = DiffMaker::new(&first, 100).unwrap();
    assert!(matches!(maker.step(Some(first)), Ok(DiffStep::NotYet)));
    assert_eq!((maker.ordinal_frame_number, maker.denoiser.metadatas.len()), (1, 1));
    // the time of the first frame again
    assert!(matches!(maker.step(Some(frame(1, 200_000))), Ok(DiffStep::NotYet)));
    assert_eq!((maker.ordinal_frame_number, maker.denoiser.metadatas.len()), (2, 1));
    assert!(matches!(maker.step(Some(frame(2, 300_000))), Ok(DiffStep::NotYet)));
    assert_eq!((maker.ordinal_frame_number, maker.denoiser.metadatas.len()), (3, 2));
    match maker.step(None) {
        Ok(DiffStep::Frame(m)) => assert_eq!((m.ordinal_frame_number, m.pts), (1, 0)),
        _ => panic!("the first frame is due"),
    }
    match maker.step(None) {
        Ok(DiffStep::Frame(m)) => assert_eq!((m.ordinal_frame_number, m.pts), (3, 100_000)),
        _ => panic!("the third frame is due"),
    }
    assert!(matches!(maker.step(None), Ok(DiffStep::Done)));
}

#[test]
fn frame_of_another_size_is_named() {
    let small = ImgVec::new(vec![RGBA8::new(1, 2, 3, 255); 6], 3, 2).unwrap();
    let writer = gifski::new(Settings::default(), 4).unwrap();
    match encode_with(&[(picture(0), 0.0), (small, 0.1)], &writer, &mut NoProgress {}) {
        Err(Error::WrongSize(words)) => assert_eq!(words, "Frame 2 has wrong size (3\u{d7}2)"),
        _ => panic!("the second frame has another size"),
    }
}

#[test]
fn remapper_refuses_a_frame_of_another_size() {
    let writer = gifski::new(Settings::default(), 1).unwrap();
    let msg = |w: usize, h: usize| gifski::diff::QuantizeMessage {
        ordinal_frame_number: 1,
        frame_index: 0,
        first_frame_has_transparency: false,
        image: ImgVec::new(vec![RGBA8::new(9, 9, 9, 255); w * h], w, h).unwrap(),
        importance_map: vec![255; w * h],
        prev_frame_keeps: false,
        dispose: DisposalMethod::Keep,
        end_pts: 10_000,
        has_next_frame: false,
    };
    let mut r = Remapper::new(4, 3).unwrap();
    let other = quantize_message(msg(3, 4), &writer.settings, &writer.fixed_colors).unwrap();
    assert!(matches!(r.remap_frame(other), Err(Error::WrongSize(_))));
    assert_eq!(r.frame_index, 0);
    // the size that is noted does not count where the image has another
    let mut lying = quantize_message(msg(3, 4), &writer.settings, &writer.fixed_colors).unwrap();
    lying.width = 4;
    lying.height = 3;
    assert!(matches!(r.remap_frame(lying), Err(Error::WrongSize(_))));
    let right = quantize_message(msg(4, 3), &writer.settings, &writer.fixed_colors).unwrap();
    let m = r.remap_frame(right).unwrap();
    assert_eq!((m.frame.image.width, m.frame.image.height), (4, 3));
    assert_eq!(r.frame_index, 1);
}

#[test]
fn fixed_colours_and_transparency_reach_the_palette() {
    let mut writer = gifski::new(Settings::default(), 1).unwrap();
    writer.add_fixed_color(RGB8::new(200, 1, 2));
    writer.add_fixed_color(RGB8::new(3, 250, 4));
    let msg = |frame_index: u32, v: u8| gifski::diff::QuantizeMessage {
        ordinal_frame_number: frame_index as usize + 1,
        frame_index,
        first_frame_has_transparency: false,
        image: ImgVec::new(vec![RGBA8::new(v, v, v, 255); 12], 4, 3).unwrap(),
        importance_map: vec![255; 12],
        prev_frame_keeps: frame_index > 0,
        dispose: DisposalMethod::Keep,
        end_pts: 10_000 * (i64::from(frame_index) + 1),
        has_next_frame: true,
    };
    let mut r = Remapper::new(4, 3).unwrap();
    let first = quantize_message(msg(0, 90), &writer.settings, &writer.fixed_colors).unwrap();
    let first = r.remap_frame(first).unwrap();
    assert!(first.frame.pal.contains(&RGB8::new(200, 1, 2)));
    assert!(first.frame.pal.contains(&RGB8::new(3, 250, 4)));
    assert!(first.frame.pal.contains(&RGB8::new(90, 90, 90)));
    // the first frame has no transparent pixel and needs no transparency
    assert_eq!(first.frame.transparent_index, None);
    let second = quantize_message(msg(1, 160), &writer.settings, &writer.fixed_colors).unwrap();
    let second = r.remap_frame(second).unwrap();
    assert!(second.frame.pal.contains(&RGB8::new(200, 1, 2)));
    assert!(second.frame.pal.contains(&RGB8::new(3, 250, 4)));
    assert!(second.frame.transparent_index.is_some());
}
