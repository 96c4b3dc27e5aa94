use gifski::capi::{argb_frame, frame_layout, repeat_from_c, rgb_frame, GifskiSettings, ARGB8};
use gifski::cli::{
    check_errors, extension_type, file_type, parse_color, parse_colors, BinError, DestPath,
    FileType,
};
use gifski::color::{RGB8, RGBA8};
use gifski::crop::{crop, trim_image};
use gifski::diff::{DiffMessage, Differ, LastFrameDuration};
use gifski::encoder::{LzwFrame, RustEncoder};
use gifski::error::{combine_res, Error, GifskiError, IoErrorKind};
use gifski::gifsicle::{color_diff, diffused_difference, GiflossyImage, GiflossyWriter, RgbDiff};
use gifski::img::ImgVec;
use gifski::ordqueue;
use gifski::palette::{palette_bytes, transparent_index_from_palette};
use gifski::prepare::{
    apply_matte, binary_alpha, decode_frame, dither_image, resized_binary_alpha, FrameSource,
};
use gifski::quantize::{
    clear_unimportant, max_colors, next_power_of_two, quantizer_quality, quantizer_speed,
    rounded_palette,
};
use gifski::remap::GIFFrame;
use gifski::screen::{DisposalMethod, Screen};
use gifski::settings::{dimensions_for_image, Repeat, Settings, SettingsExt};
use gifski::writer::{after_increase, frame_delay, FrameWriter};

fn ext(quality: u8, lossy: u8) -> SettingsExt {
    SettingsExt {
        s: Settings { quality, ..Settings::default() },
        max_threads: 8,
        extra_effort: false,
        motion_quality: quality,
        giflossy_quality: lossy,
        matte: None,
    }
}

#[test]
fn color_parser() {
    assert_eq!(
        parse_colors("#123456 78abCD,, ,").unwrap(),
        vec![RGB8::new(0x12, 0x34, 0x56), RGB8::new(0x78, 0xab, 0xcd)]
    );
    assert!(parse_colors("#12345").is_err());
}

#[test]
fn parse_color_edge_cases() {
    assert_eq!(parse_color("  #FFffFF\n").unwrap(), RGB8::new(255, 255, 255));
    assert_eq!(parse_color("000000").unwrap(), RGB8::new(0, 0, 0));
    assert_eq!(parse_color("+1+2+f").unwrap(), RGB8::new(1, 2, 15));
    assert!(parse_color("").is_err());
    assert!(parse_color("#").is_err());
    assert!(parse_color("##123456").is_err());
    assert!(parse_color("12345g").is_err());
    assert!(parse_color("1234567").is_err());
    assert!(parse_color("12 456").is_err());
    assert_eq!(parse_colors("").unwrap(), vec![]);
    assert_eq!(parse_colors(" , ").unwrap(), vec![]);
    assert_eq!(parse_colors("010203").unwrap(), vec![RGB8::new(1, 2, 3)]);
    assert!(parse_colors("010203,xyz").is_err());
}

#[test]
fn dest_path_and_file_types() {
    assert!(matches!(DestPath::new("-"), DestPath::Stdout));
    assert!(matches!(DestPath::new("a.gif"), DestPath::Path(p) if p == "a.gif"));
    assert!(matches!(DestPath::new("--"), DestPath::Path(_)));
    assert!(matches!(DestPath::new(""), DestPath::Path(_)));
    assert_eq!(file_type(b"\x89PNG"), FileType::PNG);
    assert_eq!(file_type(b"GIF8"), FileType::GIF);
    assert_eq!(file_type(b"YUV4"), FileType::Y4M);
    assert_eq!(file_type(&[0xFF, 0xD8, 0, 0]), FileType::JPEG);
    assert_eq!(file_type(&[0xFF, 0xD8, 0xFF, 0xE0]), FileType::JPEG);
    assert_eq!(file_type(&[0, 0, 0, 0]), FileType::Other);
    assert_eq!(extension_type("png"), Some(FileType::PNG));
    assert_eq!(extension_type("PnG"), Some(FileType::PNG));
    assert_eq!(extension_type("Y4M"), Some(FileType::Y4M));
    assert_eq!(extension_type("gif"), None);
    assert_eq!(extension_type("pngs"), None);
}

#[test]
fn check_errors_prefers_the_cause() {
    assert!(check_errors::<String>(Ok(()), Ok(())).is_ok());
    assert!(matches!(
        check_errors(Ok(()), Err("x".to_string())),
        Err(BinError::Source(s)) if s == "x"
    ));
    assert!(matches!(
        check_errors::<String>(Err(Error::Aborted), Ok(())),
        Err(BinError::Gifski(Error::Aborted))
    ));
    for e in [Error::ThreadSend, Error::Aborted, Error::NoFrames] {
        assert!(matches!(check_errors(Err(e), Err(1u8)), Err(BinError::Source(1))));
    }
    assert!(matches!(
        check_errors(Err(Error::Gifsicle), Err(1u8)),
        Err(BinError::Gifski(Error::Gifsicle))
    ));
}

#[test]
fn combine_res_keeps_the_cause() {
    assert!(combine_res(Ok(()), Ok(())).is_ok());
    assert!(matches!(combine_res(Err(Error::NoFrames), Ok(())), Err(Error::NoFrames)));
    assert!(matches!(combine_res(Ok(()), Err(Error::Aborted)), Err(Error::Aborted)));
    assert!(matches!(combine_res(Err(Error::ThreadSend), Err(Error::Aborted)), Err(Error::Aborted)));
    assert!(matches!(combine_res(Err(Error::Aborted), Err(Error::ThreadSend)), Err(Error::Aborted)));
    assert!(matches!(combine_res(Err(Error::Aborted), Err(Error::NoFrames)), Err(Error::NoFrames)));
    assert!(matches!(combine_res(Err(Error::NoFrames), Err(Error::Gifsicle)), Err(Error::Gifsicle)));
    assert!(matches!(combine_res(Err(Error::Pal), Err(Error::Aborted)), Err(Error::Pal)));
    assert!(matches!(
        combine_res(Err(Error::WrongSize("a".into())), Err(Error::PNG("b".into()))),
        Err(Error::WrongSize(_))
    ));
    let joined = combine_res(
        combine_res(combine_res(Err(Error::Aborted), Err(Error::ThreadSend)), combine_res(Ok(()), Err(Error::Gifsicle))),
        Err(Error::Aborted),
    );
    assert!(matches!(joined, Err(Error::Gifsicle)));
}

#[test]
fn gifski_error_codes() {
    for code in 0..16 {
        assert_eq!(GifskiError::from_code(code).code(), code);
    }
    assert_eq!(GifskiError::from_code(16), GifskiError::OTHER);
    assert_eq!(GifskiError::from_code(-1), GifskiError::OTHER);
    assert_eq!(GifskiError::OK.code(), 0);
    assert_eq!(GifskiError::ABORTED.code(), 14);
    assert_eq!(GifskiError::from_result(&Ok(())), GifskiError::OK);
    assert_eq!(GifskiError::from_result(&Err(Error::Aborted)), GifskiError::ABORTED);
    assert_eq!(GifskiError::from_result(&Err(Error::ThreadSend)), GifskiError::THREAD_LOST);
    assert_eq!(GifskiError::from_result(&Err(Error::NoFrames)), GifskiError::INVALID_STATE);
    assert_eq!(GifskiError::from_result(&Err(Error::Gifsicle)), GifskiError::GIF);
    assert_eq!(GifskiError::from_result(&Err(Error::Pal)), GifskiError::GIF);
    assert_eq!(GifskiError::from_result(&Err(Error::PNG("x".into()))), GifskiError::OTHER);
    assert_eq!(GifskiError::from_result(&Err(Error::WrongSize("x".into()))), GifskiError::INVALID_INPUT);
    assert_eq!(
        GifskiError::from_result(&Err(Error::Quant(imagequant::liq_error::Unsupported))),
        GifskiError::QUANT
    );
    assert_eq!(
        GifskiError::from_result(&Err(Error::Gif(gif::EncodingFormatError::TooManyColors))),
        GifskiError::GIF
    );
    assert_eq!(
        GifskiError::from_result(&Err(Error::Io(IoErrorKind::NotFound))),
        GifskiError::NOT_FOUND
    );
    assert_eq!(GifskiError::from_io_kind(IoErrorKind::InvalidData), GifskiError::INVALID_INPUT);
    assert_eq!(GifskiError::from_io_kind(IoErrorKind::OutOfMemory), GifskiError::OTHER);
    assert_eq!(GifskiError::from_io_kind(IoErrorKind::WriteZero), GifskiError::WRITE_ZERO);
}

#[test]
fn new_checks_the_settings() {
    assert!(gifski::new(Settings::default(), 1).is_ok());
    assert!(matches!(
        gifski::new(Settings { quality: 0, ..Settings::default() }, 1),
        Err(Error::WrongSize(_))
    ));
    assert!(gifski::new(Settings { quality: 101, ..Settings::default() }, 1).is_err());
    assert!(gifski::new(Settings { quality: 1, ..Settings::default() }, 1).is_ok());
    assert!(gifski::new(Settings { width: Some(65537), ..Settings::default() }, 1).is_err());
    assert!(gifski::new(Settings { height: Some(65537), ..Settings::default() }, 1).is_err());
    assert!(gifski::new(Settings { width: Some(65536), ..Settings::default() }, 1).is_ok());
    assert!(gifski::new(Settings::default(), 0).is_err());
    let mut w = gifski::new(Settings { quality: 77, ..Settings::default() }, 3).unwrap();
    assert_eq!(w.settings.motion_quality, 77);
    assert_eq!(w.settings.giflossy_quality, 77);
    for i in 0..300 {
        w.add_fixed_color(RGB8::new(i as u8, 0, 0));
    }
    assert_eq!(w.fixed_colors.len(), 255);
    assert_eq!(w.fixed_colors[254], RGB8::new(254, 0, 0));
    w.set_matte_color(RGB8::new(1, 2, 3));
    assert_eq!(w.settings.matte, Some(RGB8::new(1, 2, 3)));
}

#[test]
fn dimensions_follow_the_settings() {
    assert_eq!(dimensions_for_image((800, 600), (None, None)), (800, 600));
    assert_eq!(dimensions_for_image((1600, 1200), (None, None)), (800, 600));
    assert_eq!(dimensions_for_image((1000, 1000), (None, None)), (500, 500));
    // the factor becomes 2 where the area with half of 800 x 600 added
    // reaches 2.25 times 800 x 600
    assert_eq!(dimensions_for_image((916, 917), (None, None)), (916, 917));
    assert_eq!(dimensions_for_image((917, 917), (None, None)), (458, 458));
    assert_eq!(dimensions_for_image((840000, 1), (None, None)), (420000, 0));
    assert_eq!(dimensions_for_image((839999, 1), (None, None)), (839999, 1));
    assert_eq!(dimensions_for_image((4000, 3000), (None, None)), (800, 600));
    assert_eq!(dimensions_for_image((1, 1), (None, None)), (1, 1));
    assert_eq!(dimensions_for_image((100, 50), (Some(200), Some(20))), (100, 20));
    assert_eq!(dimensions_for_image((100, 50), (Some(40), Some(80))), (40, 50));
    assert_eq!(dimensions_for_image((100, 50), (Some(40), None)), (40, 20));
    assert_eq!(dimensions_for_image((100, 50), (Some(400), None)), (100, 50));
    assert_eq!(dimensions_for_image((100, 50), (None, Some(10))), (20, 10));
    assert_eq!(dimensions_for_image((101, 50), (None, Some(7))), (14, 7));
    assert_eq!(Settings::default().dimensions_for_image(1600, 1200), (800, 600));
}

#[test]
fn dimensions_agree_with_the_square_root() {
    let mut seed = 7u64;
    for _ in 0..20000 {
        seed = seed.wrapping_mul(6364136223846793005).wrapping_add(1442695040888963407);
        let w = 1 + (seed >> 40) as usize % 20000;
        let h = 1 + (seed >> 20) as usize % 20000;
        let factor = ((w * h + 800 * 600 / 2) as f64 / f64::from(800 * 600)).sqrt().round() as usize;
        let expected = if factor > 1 { (w / factor, h / factor) } else { (w, h) };
        assert_eq!(dimensions_for_image((w, h), (None, None)), expected);
    }
}

#[test]
fn loss_and_dithering_agree_with_the_formulas() {
    for q in 1..=100u8 {
        let s = ext(90, q);
        let expected = if q < 100 {
            ((100. / 5. - f32::from(q) / 5.).powf(1.8).ceil() as u32 + 10) * 10
        } else {
            0
        };
        assert_eq!(s.gifsicle_loss(), expected, "quality {q}");
    }
    assert_eq!(ext(100, 0).gifsicle_loss(), 2300);
    assert_eq!(ext(100, 99).gifsicle_loss(), 110);
    assert_eq!(ext(100, 95).gifsicle_loss(), 110);
    assert_eq!(ext(100, 94).gifsicle_loss(), 120);
    for q in 1..=100u8 {
        for l in (1..=100u8).step_by(3) {
            let s = ext(q, l);
            let factor = 0.25 + f32::from(l) * (1. / 100. * 1. / 0.9 * 0.75);
            let expected = (f32::from(q) * (1. / 50. * factor) - 1.).clamp(0.2, 1.);
            let got = f32::from(s.dithering_level()) / 6000.;
            assert!((got - expected).abs() < 0.0002, "{q} {l}: {got} {expected}");
        }
    }
    assert_eq!(ext(100, 100).dithering_level(), 6000);
    assert_eq!(ext(50, 100).dithering_level(), 1200);
    assert_eq!(ext(80, 70).dithering_level(), 2000);
    assert_eq!(ext(100, 100).s.color_quality(), 100);
    assert_eq!(ext(60, 100).s.color_quality(), 80);
    assert_eq!(ext(1, 100).s.color_quality(), 1);
}

#[test]
fn worker_counts() {
    let mut s = ext(100, 100);
    assert_eq!((s.resize_threads(), s.quant_threads(), s.lzw_threads()), (4, 4, 1));
    s.s.fast = true;
    assert_eq!((s.resize_threads(), s.quant_threads(), s.lzw_threads()), (6, 4, 3));
    s.s.fast = false;
    s.giflossy_quality = 50;
    s.max_threads = 2;
    assert_eq!((s.resize_threads(), s.quant_threads(), s.lzw_threads()), (2, 2, 3));
}

#[test]
fn quantizer_is_asked_for_what_the_settings_say() {
    let mut s = ext(90, 100);
    assert_eq!(quantizer_speed(&s, true), None);
    assert_eq!(quantizer_speed(&s, false), None);
    s.s.fast = true;
    assert_eq!(quantizer_speed(&s, true), None);
    assert_eq!(quantizer_speed(&s, false), Some(10));
    s.extra_effort = true;
    assert_eq!(quantizer_speed(&s, true), Some(1));
    assert_eq!(quantizer_quality(&s, true), 100);
    assert_eq!(quantizer_quality(&ext(60, 100), false), 80);
    assert_eq!(max_colors(50, 0), None);
    assert_eq!(max_colors(49, 0), Some(128));
    assert_eq!(max_colors(32, 0), Some(64));
    assert_eq!(max_colors(1, 0), Some(8));
    assert_eq!(max_colors(1, 4), Some(16));
    assert_eq!(max_colors(1, 255), Some(256));
    assert_eq!(rounded_palette(0), Some(1));
    assert_eq!(rounded_palette(1), None);
    assert_eq!(rounded_palette(3), Some(4));
    assert_eq!(rounded_palette(64), None);
    assert_eq!(rounded_palette(100), Some(128));
    assert_eq!(rounded_palette(127), Some(128));
    assert_eq!(rounded_palette(128), None);
    assert_eq!(rounded_palette(200), None);
    assert_eq!(rounded_palette(220), None);
    assert_eq!(rounded_palette(221), Some(256));
    assert_eq!(rounded_palette(256), None);
    for n in 0..=512u32 {
        assert_eq!(next_power_of_two(n), n.next_power_of_two());
    }
}

#[test]
fn unimportant_pixels_are_cleared() {
    let c = RGBA8::new(1, 2, 3, 255);
    let t = RGBA8::new(0, 0, 0, 0);
    let map = vec![0u8, 5, 0, 1];
    let run = |s: &SettingsExt, frame_index: u32, keeps: bool| {
        let mut img = ImgVec::new(vec![c; 4], 2, 2).unwrap();
        clear_unimportant(&mut img, &map, s, frame_index, keeps);
        img.buf
    };
    let cleared = vec![t, c, t, c];
    let kept = vec![c; 4];
    assert_eq!(run(&ext(90, 100), 1, false), kept);
    assert_eq!(run(&ext(100, 100), 1, true), kept);
    // at quality 90 two of five frames are left to improve the background
    assert_eq!(run(&ext(90, 100), 0, true), kept);
    assert_eq!(run(&ext(90, 100), 1, true), kept);
    assert_eq!(run(&ext(90, 100), 2, true), cleared);
    assert_eq!(run(&ext(90, 100), 7, true), cleared);
    assert_eq!(run(&ext(80, 100), 5, true), cleared);
    let mut fast = ext(100, 100);
    fast.s.fast = true;
    assert_eq!(run(&fast, 0, true), cleared);
}

#[test]
fn delays_are_what_is_left_of_the_time() {
    assert_eq!(frame_delay(1_300_000, 0), 130);
    assert_eq!(frame_delay(1_200_000, 0), 120);
    assert_eq!(frame_delay(1_400_000, 120), 20);
    assert_eq!(frame_delay(0, 0), 2);
    assert_eq!(frame_delay(-5, 0), 2);
    assert_eq!(frame_delay(10_000, 0), 2);
    assert_eq!(frame_delay(24_999, 0), 2);
    assert_eq!(frame_delay(25_000, 0), 3);
    assert_eq!(frame_delay(34_999, 0), 3);
    assert_eq!(frame_delay(1_000_000, 200), 2);
    assert_eq!(frame_delay(400_000_000, 0), 30000);
    assert_eq!(frame_delay(300_000_000, 0), 30000);
    assert_eq!(frame_delay(299_990_000, 0), 29999);
    assert_eq!(frame_delay(i64::MAX, u64::MAX), 2);
    assert!(after_increase(true).is_ok());
    assert!(matches!(after_increase(false), Err(Error::Aborted)));
}

fn lzw_frame(pixels: Vec<u8>, w: u16, h: u16, pal: &[RGB8], lossy: u8) -> LzwFrame {
    let f = GIFFrame {
        left: 1,
        top: 2,
        image: ImgVec::new(pixels, w as usize, h as usize).unwrap(),
        pal: pal.to_vec(),
        dispose: DisposalMethod::Background,
        transparent_index: Some(1),
    };
    RustEncoder::compress_frame(f, &ext(100, lossy)).unwrap()
}

#[test]
fn file_bytes_are_those_of_a_gif() {
    let pal = [RGB8::new(1, 2, 3), RGB8::new(4, 5, 6), RGB8::new(7, 8, 9)];
    let frame = lzw_frame(vec![0, 1, 2, 2, 1, 0], 3, 2, &pal, 100);
    assert_eq!(frame.palette, [1, 2, 3, 4, 5, 6, 7, 8, 9, 115, 107, 105]);
    let mut fw = FrameWriter::new(Settings { repeat: Repeat::Finite(3), ..Settings::default() });
    let first = fw.write_frame(&frame, 250_000, 300, 513).unwrap();
    let mut expected: Vec<u8> = b"GIF89a".to_vec();
    // no palette for the whole file
    expected.extend([44, 1, 1, 2, 0, 0, 0]);
    expected.extend([0x21, 0xFF, 11]);
    expected.extend(b"NETSCAPE2.0");
    expected.extend([3, 1, 3, 0, 0]);
    expected.extend([0x21, 0xFE, 7]);
    expected.extend(b"gif.ski");
    expected.push(0);
    let mut frame_bytes = vec![0x21, 0xF9, 4, 8 + 1, 25, 0, 1, 0];
    frame_bytes.extend([0x2C, 1, 0, 2, 0, 3, 0, 2, 0, 0x80 + 1]);
    frame_bytes.extend(&frame.palette);
    frame_bytes.push(frame.buffer[0]);
    frame_bytes.push((frame.buffer.len() - 1) as u8);
    frame_bytes.extend(&frame.buffer[1..]);
    frame_bytes.push(0);
    expected.extend(&frame_bytes);
    assert_eq!(first, expected);
    // the second frame brings no head, and its delay is what is left
    let second = fw.write_frame(&frame, 300_000, 300, 513).unwrap();
    frame_bytes[4] = 5;
    assert_eq!(second, frame_bytes);
    assert_eq!(fw.pts_in_delay_units, 30);
    assert!(matches!(FrameWriter::new(Settings::default()).finish(), Err(Error::NoFrames)));
    fw.report(1, &mut gifski::progress::NoProgress {}).unwrap();
    assert_eq!(fw.finish().unwrap(), [0x3B]);
}

#[test]
fn looping_extension_follows_repeat() {
    let pal = [RGB8::new(1, 2, 3), RGB8::new(4, 5, 6)];
    let frame = lzw_frame(vec![0, 1], 2, 1, &pal, 100);
    let len = |repeat| {
        let mut fw = FrameWriter::new(Settings { repeat, ..Settings::default() });
        fw.write_frame(&frame, 100_000, 2, 1).unwrap().len()
    };
    assert_eq!(len(Repeat::Finite(0)) + 19, len(Repeat::Infinite));
    assert_eq!(len(Repeat::Finite(7)), len(Repeat::Infinite));
    let mut fw = FrameWriter::new(Settings::default());
    let bytes = fw.write_frame(&frame, 100_000, 2, 1).unwrap();
    assert_eq!(&bytes[13..32], [0x21, 0xFF, 11, 78, 69, 84, 83, 67, 65, 80, 69, 50, 46, 48, 3, 1, 0, 0, 0]);
}

#[test]
fn long_data_goes_into_blocks() {
    let pal: Vec<RGB8> = (0..=255u8).map(|i| RGB8::new(i, i, i)).collect();
    let mut seed = 5u32;
    let pixels: Vec<u8> = (0..1200)
        .map(|_| {
            seed = seed.wrapping_mul(1664525).wrapping_add(1013904223);
            (seed >> 24) as u8
        })
        .collect();
    let frame = lzw_frame(pixels, 40, 30, &pal, 100);
    assert!(frame.buffer.len() > 600);
    let mut enc = RustEncoder::new();
    let bytes = enc.write_frame(&frame, 4, 40, 30, &Settings::default()).unwrap();
    let data = &bytes[bytes.len() - (frame.buffer.len() + (frame.buffer.len() - 1 + 254) / 255 + 1)..];
    assert_eq!(data[0], frame.buffer[0]);
    assert_eq!(data[1], 255);
    assert_eq!(&data[2..257], &frame.buffer[1..256]);
    assert_eq!(data[257], 255);
    assert_eq!(data[data.len() - 1], 0);
    let mut all = bytes;
    all.extend(enc.finish().unwrap());
    let mut opts = gif::DecodeOptions::new();
    opts.set_color_output(gif::ColorOutput::Indexed);
    let mut decoder = opts.read_info(&all[..]).unwrap();
    let decoded = decoder.read_next_frame().unwrap().unwrap();
    assert_eq!(decoded.buffer.len(), 1200);
    assert_eq!((decoded.left, decoded.top, decoded.delay), (1, 2, 4));
    assert_eq!(decoded.transparent, Some(1));
}

fn decode_lzw(frame: &LzwFrame) -> Vec<u8> {
    let mut enc = RustEncoder::new();
    let mut all = enc
        .write_frame(frame, 4, frame.left + frame.width, frame.top + frame.height, &Settings::default())
        .unwrap();
    all.extend(enc.finish().unwrap());
    let mut opts = gif::DecodeOptions::new();
    opts.set_color_output(gif::ColorOutput::Indexed);
    let mut decoder = opts.read_info(&all[..]).unwrap();
    decoder.read_next_frame().unwrap().unwrap().buffer.to_vec()
}

#[test]
fn lossless_data_decodes_to_the_pixels() {
    let pal: Vec<RGB8> = (0..5u8).map(|i| RGB8::new(i * 50, i, 255 - i)).collect();
    let pixels: Vec<u8> = (0..400).map(|i| ((i * 7 + i / 13) % 5) as u8).collect();
    let frame = lzw_frame(pixels.clone(), 20, 20, &pal, 100);
    assert!((2..=8).contains(&frame.buffer[0]));
    assert_eq!(decode_lzw(&frame), pixels);
}

#[test]
fn lossy_data_decodes_near_the_pixels() {
    // colours that differ by little, so that loss can merge them
    let pal: Vec<RGB8> = (0..64u8).map(|i| RGB8::new(100 + i / 8, 100 + i % 8, 100)).collect();
    for (w, h) in [(1u16, 1u16), (7, 3), (64, 64), (250, 200)] {
        let mut seed = 11u32;
        let pixels: Vec<u8> = (0..w as usize * h as usize)
            .map(|_| {
                seed = seed.wrapping_mul(1664525).wrapping_add(1013904223);
                (seed >> 26) as u8
            })
            .collect();
        for lossy in [99u8, 60, 1] {
            let frame = lzw_frame(pixels.clone(), w, h, &pal, lossy);
            assert_eq!(frame.buffer[0], 6);
            let decoded = decode_lzw(&frame);
            assert_eq!(decoded.len(), pixels.len());
            assert_eq!(decoded[0], pixels[0]);
            assert!(decoded.iter().all(|&p| p < 64));
        }
    }
}

#[test]
fn lossy_writer_without_loss_is_exact() {
    let pal: Vec<RGB8> = (0..200u8).map(|i| RGB8::new(i, 255 - i, i / 2)).collect();
    // long enough to fill the table of codes and clear it
    let mut seed = 3u32;
    let pixels: Vec<u8> = (0..60000)
        .map(|_| {
            seed = seed.wrapping_mul(1664525).wrapping_add(1013904223);
            ((seed >> 24) % 200) as u8
        })
        .collect();
    let image = GiflossyImage::new(&pixels, 300, 200, None, Some(&pal));
    let data = GiflossyWriter { loss: 0 }.write(&image, None).unwrap();
    assert_eq!(data[0], 8);
    let frame = LzwFrame {
        left: 0,
        top: 0,
        width: 300,
        height: 200,
        dispose: DisposalMethod::Keep,
        transparent: None,
        palette: palette_bytes(&pal),
        buffer: data,
    };
    assert_eq!(decode_lzw(&frame), pixels);
    // a picture of long runs, with the shared palette
    let runs: Vec<u8> = (0..60000).map(|i| (i / 997 % 3) as u8).collect();
    let image = GiflossyImage::new(&runs, 300, 200, Some(2), None);
    let data = GiflossyWriter { loss: 0 }.write(&image, Some(&pal[..3])).unwrap();
    assert_eq!(data[0], 2);
    let frame = LzwFrame { palette: palette_bytes(&pal[..3].to_vec()), buffer: data, ..frame };
    assert_eq!(decode_lzw(&frame), runs);
    assert_eq!(image.px_at_pos(59999), Some(runs[59999]));
    assert_eq!(image.px_at_pos(60000), None);
}

#[test]
fn compress_frame_refuses_indices_outside_the_palette() {
    let pal = [RGB8::new(1, 2, 3), RGB8::new(4, 5, 6), RGB8::new(7, 8, 9)];
    let f = GIFFrame {
        left: 0,
        top: 0,
        image: ImgVec::new(vec![0, 4], 2, 1).unwrap(),
        pal: pal.to_vec(),
        dispose: DisposalMethod::Keep,
        transparent_index: None,
    };
    assert!(matches!(RustEncoder::compress_frame(f, &ext(100, 50)), Err(Error::Gifsicle)));
}

#[test]
fn lossy_color_metrics() {
    let zero = RgbDiff { r: 0, g: 0, b: 0 };
    let a = RGB8::new(100, 100, 100);
    let b = RGB8::new(103, 96, 100);
    assert_eq!(color_diff(a, b, false, false, zero), 25);
    assert_eq!(color_diff(a, b, true, false, zero), 1 << 25);
    assert_eq!(color_diff(a, b, true, true, zero), 0);
    // with an error carried: (-3 + 4)^2 + (4 - 4)^2 + 0 = 1; with half of it (-1)^2 + 2^2 = 5
    let d = RgbDiff { r: 4, g: -4, b: 0 };
    assert_eq!(color_diff(a, b, false, false, d), 1);
    assert_eq!(diffused_difference(a, b, false, false, d), RgbDiff { r: 0, g: 1, b: 0 });
    assert_eq!(diffused_difference(a, b, false, true, d), zero);
    let e = RgbDiff { r: -7, g: 7, b: -1 };
    // -7 * 3 / 4 = -5 towards zero
    assert_eq!(diffused_difference(a, a, false, false, e), RgbDiff { r: -5, g: 5, b: 0 });
}

#[test]
fn palette_has_one_transparent_index() {
    let pal = vec![
        RGBA8::new(1, 1, 1, 255),
        RGBA8::new(2, 2, 2, 128),
        RGBA8::new(3, 3, 3, 129),
        RGBA8::new(4, 4, 4, 0),
        RGBA8::new(5, 5, 5, 77),
    ];
    let mut img = ImgVec::new(vec![0, 1, 2, 3, 4, 4, 3, 1], 4, 2).unwrap();
    let (out, transparent) = transparent_index_from_palette(pal, &mut img);
    assert_eq!(transparent, Some(1));
    assert_eq!(img.buf, [0, 1, 2, 1, 1, 1, 1, 1]);
    let filler = RGB8::new(71, 80, 76);
    assert_eq!(out, [RGB8::new(1, 1, 1), filler, RGB8::new(3, 3, 3), filler, filler]);
    let mut img = ImgVec::new(vec![0, 0], 2, 1).unwrap();
    let (out, transparent) = transparent_index_from_palette(vec![RGBA8::new(9, 8, 7, 200)], &mut img);
    assert_eq!((out, transparent), (vec![RGB8::new(9, 8, 7)], None));
    for n in 0..=256usize {
        let pal = vec![RGB8::new(1, 2, 3); n];
        let bytes = palette_bytes(&pal);
        assert_eq!(bytes.len(), 3 * n.max(2).next_power_of_two());
        if bytes.len() > 3 * n {
            assert_eq!(bytes[3 * n], 115);
        }
    }
    let bytes = palette_bytes(&vec![RGB8::new(1, 2, 3); 5]);
    assert_eq!(&bytes[15..], [115, 107, 105, 46, 103, 105, 102, 115, 107]);
}

fn screen_of(pixels: Vec<RGBA8>, w: usize, h: usize) -> ImgVec<RGBA8> {
    ImgVec::new(pixels, w, h).unwrap()
}

#[test]
fn trim_finds_what_changes() {
    let pal = vec![RGB8::new(10, 10, 10), RGB8::new(20, 20, 20)];
    let bg = RGBA8::new(10, 10, 10, 255);
    let screen = screen_of(vec![bg; 30], 6, 5);
    let mut px = vec![0u8; 30];
    px[2 * 6 + 3] = 1;
    px[3 * 6 + 1] = 1;
    let img = ImgVec::new(px, 6, 5).unwrap();
    let r = trim_image(&img, &pal, None, DisposalMethod::Keep, &screen);
    assert_eq!(r, Some((1, 2, 3, 2)));
    let cropped = crop(&img, 1, 2, 3, 2);
    assert_eq!(cropped.buf, [0, 0, 1, 1, 0, 0]);
    // nothing changes
    let same = ImgVec::new(vec![0u8; 30], 6, 5).unwrap();
    assert_eq!(trim_image(&same, &pal, None, DisposalMethod::Keep, &screen), None);
    // everything changes
    let all = ImgVec::new(vec![1u8; 30], 6, 5).unwrap();
    assert_eq!(trim_image(&all, &pal, None, DisposalMethod::Keep, &screen), Some((0, 0, 6, 5)));
    // a corner pixel
    let mut px = vec![0u8; 30];
    px[29] = 1;
    let corner = ImgVec::new(px, 6, 5).unwrap();
    assert_eq!(trim_image(&corner, &pal, None, DisposalMethod::Keep, &screen), Some((5, 4, 1, 1)));
    // an index outside the palette never matches
    let mut px = vec![0u8; 30];
    px[0] = 9;
    let outside = ImgVec::new(px, 6, 5).unwrap();
    assert_eq!(trim_image(&outside, &pal, None, DisposalMethod::Keep, &screen), Some((0, 0, 1, 1)));
}

#[test]
fn trim_treats_transparency_by_disposal() {
    let pal = vec![RGB8::new(10, 10, 10), RGB8::new(71, 80, 76)];
    let bg = RGBA8::new(10, 10, 10, 255);
    let clear = RGBA8::new(0, 0, 0, 0);
    let mut s = vec![bg; 9];
    s[8] = clear;
    let screen = screen_of(s, 3, 3);
    let mut px = vec![1u8; 9];
    px[4] = 0;
    // transparent pixels do nothing where the frame is kept
    let img = ImgVec::new(px.clone(), 3, 3).unwrap();
    assert_eq!(trim_image(&img, &pal, Some(1), DisposalMethod::Keep, &screen), None);
    let mut px2 = px.clone();
    px2[8] = 0;
    let img2 = ImgVec::new(px2, 3, 3).unwrap();
    assert_eq!(trim_image(&img2, &pal, Some(1), DisposalMethod::Keep, &screen), Some((2, 2, 1, 1)));
    // where the frame is cleared they match a clear screen only
    assert_eq!(
        trim_image(&img, &pal, Some(1), DisposalMethod::Background, &screen),
        Some((0, 0, 3, 3))
    );
    let clear_screen = screen_of(vec![clear; 9], 3, 3);
    let all_clear = ImgVec::new(vec![1u8; 9], 3, 3).unwrap();
    assert_eq!(trim_image(&all_clear, &pal, Some(1), DisposalMethod::Background, &clear_screen), None);
}

#[test]
fn screen_draws_and_disposes() {
    let mut screen = Screen::new(4, 3);
    assert!(screen.pixels_rgba().buf.iter().all(|p| *p == RGBA8::new(0, 0, 0, 0)));
    let pal = vec![RGB8::new(1, 2, 3), RGB8::new(4, 5, 6)];
    let img = ImgVec::new(vec![0, 1, 1, 0], 2, 2).unwrap();
    screen.dispose_only();
    screen.then_blit(&pal, DisposalMethod::Background, 1, 1, &img, Some(1));
    let t = RGBA8::new(0, 0, 0, 0);
    let c = RGBA8::new(1, 2, 3, 255);
    assert_eq!(screen.pixels.buf, [t, t, t, t, t, c, t, t, t, t, c, t]);
    // an index outside the palette is black
    let far = ImgVec::new(vec![7], 1, 1).unwrap();
    screen.dispose_only();
    assert!(screen.pixels.buf.iter().all(|p| *p == t));
    screen.then_blit(&pal, DisposalMethod::Keep, 3, 2, &far, None);
    assert_eq!(screen.pixels.buf[11], RGBA8::new(0, 0, 0, 255));
    screen.dispose_only();
    assert_eq!(screen.pixels.buf[11], RGBA8::new(0, 0, 0, 255));
}

#[test]
fn screen_agrees_with_gif_dispose() {
    let mut mine = Screen::new(7, 5);
    let mut theirs = gif_dispose::Screen::new(7, 5, None);
    let mut seed = 21u32;
    let mut next = |n: u32| {
        seed = seed.wrapping_mul(1664525).wrapping_add(1013904223);
        (seed >> 16) % n
    };
    for _ in 0..200 {
        let w = 1 + next(7) as usize;
        let h = 1 + next(5) as usize;
        let left = next(8 - w as u32) as u16;
        let top = next(6 - h as u32) as u16;
        let pal: Vec<RGB8> = (0..1 + next(4)).map(|i| RGB8::new(next(256) as u8, i as u8, 9)).collect();
        let img = ImgVec::new((0..w * h).map(|_| next(5) as u8).collect(), w, h).unwrap();
        let transparent = if next(2) == 0 { Some(next(5) as u8) } else { None };
        let dispose = if next(2) == 0 { DisposalMethod::Keep } else { DisposalMethod::Background };
        mine.dispose_only();
        mine.then_blit(&pal, dispose, left, top, &img, transparent);
        let their_pal: Vec<rgb::RGB8> = pal.iter().map(|c| rgb::RGB8::new(c.r, c.g, c.b)).collect();
        let their_dispose = match dispose {
            DisposalMethod::Keep => gif::DisposalMethod::Keep,
            DisposalMethod::Background => gif::DisposalMethod::Background,
        };
        theirs
            .blit(Some(&their_pal), their_dispose, left, top, imgref::ImgRef::new(&img.buf, w, h), transparent)
            .unwrap();
        let shown: Vec<RGBA8> =
            theirs.pixels_rgba().pixels().map(|p| RGBA8::new(p.r, p.g, p.b, p.a)).collect();
        assert_eq!(shown, mine.pixels.buf);
    }
}

#[test]
fn cropped_frame_draws_the_same() {
    let mut seed = 77u32;
    let mut next = |n: u32| {
        seed = seed.wrapping_mul(1664525).wrapping_add(1013904223);
        (seed >> 16) % n
    };
    let pal = vec![RGB8::new(1, 1, 1), RGB8::new(2, 2, 2), RGB8::new(3, 3, 3)];
    for _ in 0..300 {
        let (w, h) = (1 + next(6) as usize, 1 + next(6) as usize);
        let bg: Vec<RGBA8> = (0..w * h)
            .map(|_| match next(4) {
                0 => RGBA8::new(0, 0, 0, 0),
                n => RGBA8::new(n as u8, n as u8, n as u8, 255),
            })
            .collect();
        let img = ImgVec::new((0..w * h).map(|_| next(3) as u8).collect(), w, h).unwrap();
        let transparent = if next(2) == 0 { Some(2) } else { None };
        let dispose = if next(2) == 0 { DisposalMethod::Keep } else { DisposalMethod::Background };
        let mut full = Screen::new(w, h);
        full.pixels.buf = bg.clone();
        let mut part = Screen::new(w, h);
        part.pixels.buf = bg;
        let trimmed = trim_image(&img, &pal, transparent, dispose, &full.pixels);
        full.then_blit(&pal, dispose, 0, 0, &img, transparent);
        match trimmed {
            Some((l, t, cw, ch)) => {
                let cropped = crop(&img, l as usize, t as usize, cw, ch);
                part.then_blit(&pal, dispose, l, t, &cropped, transparent);
            },
            None => {},
        }
        assert_eq!(full.pixels.buf, part.pixels.buf);
    }
}

#[test]
fn ordered_queue_hands_on_in_order() {
    let mut seed = 1u32;
    for round in 0..50 {
        // a schedule: the indices in some order
        let n = 1 + round % 17;
        let mut order: Vec<usize> = (0..n).collect();
        for i in (1..n).rev() {
            seed = seed.wrapping_mul(1664525).wrapping_add(1013904223);
            order.swap(i, (seed >> 16) as usize % (i + 1));
        }
        let mut q = ordqueue::new::<String>();
        let mut arriving = order.into_iter();
        let mut out = Vec::new();
        loop {
            let mut closed = false;
            while q.wants_more() {
                match arriving.next() {
                    Some(i) => q.push(i, format!("item {i}")),
                    None => {
                        closed = true;
                        break;
                    },
                }
            }
            match q.pop() {
                Some(item) => out.push(item),
                None => break,
            }
            if closed && q.receive_buffer.is_empty() {
                break;
            }
        }
        let expected: Vec<String> = (0..n).map(|i| format!("item {i}")).collect();
        assert_eq!(out, expected);
        assert_eq!(q.next_index, n);
    }
    let mut q = ordqueue::new::<u8>();
    assert!(q.wants_more());
    assert_eq!(q.pop(), None);
    assert_eq!(q.next_index, 0);
    // after the channel is closed, what is left leaves by its index
    q.push(5, 50);
    q.push(3, 30);
    assert!(q.wants_more());
    assert_eq!(q.pop(), Some(30));
    assert_eq!(q.pop(), Some(50));
}

#[test]
fn dither_makes_alpha_binary() {
    let mut img = ImgVec::new(
        (0..64 * 4).map(|i| RGBA8::new(1, 2, 3, (i % 256) as u8)).collect(),
        16,
        16,
    )
    .unwrap();
    let before = img.buf.clone();
    dither_image(&mut img);
    for (b, a) in before.iter().zip(img.buf.iter()) {
        assert!(a.a == 0 || a.a == 255);
        assert_eq!((a.r, a.g, a.b), (b.r, b.g, b.b));
        if b.a == 255 {
            assert_eq!(a.a, 255);
        }
        if b.a < 8 {
            assert_eq!(a.a, 0);
        }
        if b.a >= 134 {
            assert_eq!(a.a, 255);
        }
    }
    // the pattern's thresholds: 8 at (0, 0), 104 at (1, 0), 72 at (0, 1)
    let flat = |a: u8| {
        let mut img = ImgVec::new(vec![RGBA8::new(0, 0, 0, a); 64], 8, 8).unwrap();
        dither_image(&mut img);
        img.buf.iter().map(|p| p.a).collect::<Vec<_>>()
    };
    let at = flat(72);
    assert_eq!((at[0], at[1], at[8]), (255, 0, 255));
    let at = flat(71);
    assert_eq!((at[0], at[1], at[8]), (255, 0, 0));
    let at = flat(7);
    assert!(at.iter().all(|&a| a == 0));
}

#[test]
fn dither_keeps_edges_sharp() {
    // a column of half transparent pixels between a clear and an opaque side
    let row = |a: u8| vec![RGBA8::new(0, 0, 0, 0), RGBA8::new(9, 9, 9, a), RGBA8::new(9, 9, 9, 255)];
    let edge = |a: u8| {
        let mut px = Vec::new();
        for _ in 0..8 {
            px.extend(row(a));
        }
        let mut img = ImgVec::new(px, 3, 8).unwrap();
        dither_image(&mut img);
        (0..8).map(|y| img.buf[y * 3 + 1].a).collect::<Vec<_>>()
    };
    assert!(edge(89).iter().all(|&a| a == 255));
    assert!(edge(88).iter().all(|&a| a == 0));
    assert!(edge(120).iter().all(|&a| a == 255));
}

#[test]
fn matte_blends_half_transparent_pixels() {
    let mut img = ImgVec::new(
        vec![
            RGBA8::new(255, 255, 255, 64),
            RGBA8::new(10, 20, 30, 0),
            RGBA8::new(10, 20, 30, 255),
            RGBA8::new(200, 100, 0, 128),
        ],
        2,
        2,
    )
    .unwrap();
    apply_matte(&mut img, RGB8::new(0, 0, 0));
    assert_eq!(img.buf[0], RGBA8::new(64, 64, 64, 255));
    assert_eq!(img.buf[1], RGBA8::new(10, 20, 30, 0));
    assert_eq!(img.buf[2], RGBA8::new(10, 20, 30, 255));
    assert_eq!(img.buf[3], RGBA8::new(100, 50, 0, 255));
    let img = ImgVec::new(vec![RGBA8::new(0, 0, 0, 128)], 1, 1).unwrap();
    let out = binary_alpha(img, Some(RGB8::new(255, 255, 1)));
    // (0 * 128 + 255 * 127) / 255 = 127
    assert_eq!(out.buf[0], RGBA8::new(127, 127, 0, 255));
}

#[test]
fn frames_are_resized() {
    let img = ImgVec::new(vec![RGBA8::new(200, 100, 50, 255); 40 * 20], 40, 20).unwrap();
    let out = resized_binary_alpha(img, Some(10), None, None).unwrap();
    assert_eq!((out.width, out.height), (10, 5));
    assert_eq!(out.buf.len(), 50);
    for p in &out.buf {
        assert_eq!(p.a, 255);
        assert!((i32::from(p.r) - 200).abs() <= 1 && (i32::from(p.g) - 100).abs() <= 1);
    }
    let empty = ImgVec::new(Vec::new(), 0, 0).unwrap();
    assert!(matches!(resized_binary_alpha(empty, None, None, None), Err(Error::WrongSize(_))));
    let img = ImgVec::new(vec![RGBA8::new(1, 1, 1, 255); 4], 2, 2).unwrap();
    assert!(matches!(resized_binary_alpha(img, Some(0), None, None), Err(Error::WrongSize(_))));
}

#[test]
fn png_frames_are_decoded() {
    let pixels: Vec<rgb::RGBA8> =
        (0..12u8).map(|i| rgb::RGBA8::new(i * 20, 255 - i, i, if i % 3 == 0 { 0 } else { 255 })).collect();
    let png = lodepng::encode32(&pixels, 4, 3).unwrap();
    let img = decode_frame(FrameSource::PngData(png.clone())).unwrap();
    assert_eq!((img.width, img.height), (4, 3));
    let expected: Vec<RGBA8> = pixels.iter().map(|p| RGBA8::new(p.r, p.g, p.b, p.a)).collect();
    assert_eq!(img.buf, expected);
    let img = decode_frame(FrameSource::PngFile { data: png, path: "x.png".into() }).unwrap();
    assert_eq!(img.buf, expected);
    assert!(matches!(
        decode_frame(FrameSource::PngData(b"not a png".to_vec())),
        Err(Error::PNG(msg)) if msg.starts_with("Can't load PNG")
    ));
    assert!(matches!(
        decode_frame(FrameSource::PngFile { data: Vec::new(), path: "a/b.png".into() }),
        Err(Error::PNG(msg)) if msg.starts_with("Can't load a/b.png")
    ));
}

fn diff_message(pixels: Vec<RGBA8>, map: Vec<u8>, ordinal: usize, pts: i64, duration: i64) -> DiffMessage {
    let n = pixels.len();
    DiffMessage {
        ordinal_frame_number: ordinal,
        pts,
        frame_duration: duration,
        image: ImgVec::new(pixels, n, 1).unwrap(),
        importance_map: map,
    }
}

#[test]
fn differ_drops_repeats_and_unchanged_frames() {
    let a = vec![RGBA8::new(1, 1, 1, 255), RGBA8::new(2, 2, 2, 255)];
    let b = vec![RGBA8::new(1, 1, 1, 255), RGBA8::new(9, 9, 9, 255)];
    let mut d = Differ::new(diff_message(a.clone(), vec![7, 7], 1, 0, 10_000));
    assert!(!d.first_frame_has_transparency);
    // a repeat is dropped, and the first map is kept
    assert!(d.advance(Some(diff_message(a.clone(), vec![0, 0], 2, 100_000, 100_000))).unwrap().is_none());
    let m = d.advance(Some(diff_message(b.clone(), vec![0, 9], 3, 200_000, 100_000))).unwrap().unwrap();
    assert_eq!((m.ordinal_frame_number, m.frame_index, m.end_pts), (2, 0, 200_000));
    assert_eq!(m.importance_map, [7, 7]);
    assert_eq!(m.dispose, DisposalMethod::Keep);
    assert!(m.has_next_frame && !m.prev_frame_keeps);
    // a frame in which nothing matters changes nothing on a screen that is kept
    let c = vec![RGBA8::new(1, 1, 1, 255), RGBA8::new(9, 9, 8, 255)];
    let m = d.advance(Some(diff_message(c.clone(), vec![0, 0], 4, 300_000, 100_000))).unwrap().unwrap();
    assert_eq!((m.frame_index, m.end_pts, m.prev_frame_keeps), (1, 300_000, true));
    assert!(d.advance(None).unwrap().is_none());
    assert_eq!(d.frame_index, 2);
}

#[test]
fn differ_clears_before_transparency() {
    let a = vec![RGBA8::new(1, 1, 1, 255), RGBA8::new(2, 2, 2, 255)];
    let holed = vec![RGBA8::new(1, 1, 1, 255), RGBA8::new(0, 0, 0, 0)];
    let mut d = Differ::new(diff_message(a, vec![1, 1], 1, 0, 10_000));
    let m = d.advance(Some(diff_message(holed.clone(), vec![1, 1], 2, 50_000, 50_000))).unwrap().unwrap();
    assert_eq!(m.dispose, DisposalMethod::Background);
    // the last frame is shown for as long as was noted with it
    let m = d.advance(None).unwrap().unwrap();
    assert_eq!(m.end_pts, 100_000);
    assert_eq!(m.dispose, DisposalMethod::Keep);
    assert!(!m.has_next_frame);
    let mut d = Differ::new(diff_message(holed, vec![1, 1], 1, 0, 20_000));
    assert!(d.first_frame_has_transparency);
    let m = d.advance(None).unwrap().unwrap();
    assert_eq!((m.dispose, m.end_pts), (DisposalMethod::Background, 20_000));
}

#[test]
fn last_frame_duration_values() {
    assert_eq!(LastFrameDuration::FixedOffset(5).value(), 5);
    assert_eq!(LastFrameDuration::FixedOffset(5).shift_every_pts_by(), 5);
    assert_eq!(LastFrameDuration::FrameRate(7).value(), 7);
    assert_eq!(LastFrameDuration::FrameRate(7).shift_every_pts_by(), 0);
}

#[test]
fn c_settings_and_frames() {
    let c = GifskiSettings { width: 0, height: 9, quality: 80, fast: true, repeat: -1 };
    let s = c.to_settings();
    assert_eq!((s.width, s.height, s.quality, s.fast), (None, Some(9), 80, true));
    assert_eq!(s.repeat, Repeat::Finite(0));
    assert_eq!(repeat_from_c(0), Repeat::Infinite);
    assert_eq!(repeat_from_c(3), Repeat::Finite(3));
    assert_eq!(repeat_from_c(-2), Repeat::Finite(65534));
    assert_eq!(frame_layout(3, 2, 16, 4), Ok((4, 7)));
    assert_eq!(frame_layout(3, 2, 12, 4), Ok((3, 6)));
    assert_eq!(frame_layout(3, 2, 11, 4), Err(GifskiError::INVALID_INPUT));
    assert_eq!(frame_layout(0, 2, 16, 4), Err(GifskiError::INVALID_INPUT));
    assert_eq!(frame_layout(3, 0, 16, 4), Err(GifskiError::INVALID_INPUT));
    assert_eq!(frame_layout(65536, 1, u32::MAX, 3), Err(GifskiError::INVALID_INPUT));
    assert_eq!(frame_layout(2, 65535, 7, 3), Ok((2, 2 * 65534 + 2)));
    let px: Vec<ARGB8> = (0..7u8).map(|i| ARGB8 { a: i, r: 10 + i, g: 20 + i, b: 30 + i }).collect();
    let img = argb_frame(&px, 3, 2, 4).unwrap();
    let at = |i: u8| RGBA8::new(10 + i, 20 + i, 30 + i, i);
    assert_eq!(img.buf, [at(0), at(1), at(2), at(4), at(5), at(6)]);
    assert!(argb_frame(&px, 3, 2, 5).is_none());
    assert!(argb_frame(&px, 3, 0, 4).is_none());
    assert!(argb_frame(&px, 5, 1, 4).is_none());
    let px: Vec<RGB8> = (0..4u8).map(|i| RGB8::new(i, i, i)).collect();
    let img = rgb_frame(&px, 2, 2, 2).unwrap();
    assert_eq!(img.buf[3], RGBA8::new(3, 3, 3, 255));
}

#[test]
fn gif_errors_keep_their_kind() {
    let refused = gif::EncodingError::Format(gif::EncodingFormatError::TooManyColors);
    assert!(matches!(
        gifski::encoder::gif_error(refused),
        Error::Gif(gif::EncodingFormatError::TooManyColors)
    ));
    let full = gif::EncodingError::Io(std::io::Error::new(std::io::ErrorKind::WriteZero, "full"));
    assert!(matches!(gifski::encoder::gif_error(full), Error::Io(IoErrorKind::WriteZero)));
    let lost = gif::EncodingError::Io(std::io::Error::new(std::io::ErrorKind::NotFound, "lost"));
    assert!(matches!(gifski::encoder::gif_error(lost), Error::Io(IoErrorKind::NotFound)));
    let odd = gif::EncodingError::Io(std::io::Error::new(std::io::ErrorKind::AddrInUse, "odd"));
    assert!(matches!(gifski::encoder::gif_error(odd), Error::Io(IoErrorKind::Other)));
}

#[test]
fn differ_drops_a_frame_that_is_replaced_at_once() {
    let a = vec![RGBA8::new(1, 1, 1, 255), RGBA8::new(2, 2, 2, 255)];
    let b = vec![RGBA8::new(1, 1, 1, 255), RGBA8::new(9, 9, 9, 255)];
    let c = vec![RGBA8::new(5, 5, 5, 255), RGBA8::new(9, 9, 9, 255)];
    let mut d = Differ::new(diff_message(a, vec![7, 7], 1, 0, 10_000));
    let m = d.advance(Some(diff_message(b, vec![0, 9], 2, 500_000, 500_000))).unwrap().unwrap();
    assert_eq!((m.frame_index, m.end_pts), (0, 500_000));
    // another picture at the same time: the one in hand is shown for no time
    assert!(d.advance(Some(diff_message(c, vec![9, 0], 3, 500_000, 500_000))).unwrap().is_none());
    assert!(d.importance_map.is_none());
    let m = d.advance(None).unwrap().unwrap();
    assert_eq!((m.ordinal_frame_number, m.frame_index, m.end_pts), (3, 1, 1_000_000));
    assert_eq!(m.importance_map, [9, 0]);
}

#[test]
fn placed_frame_is_cut_to_what_changes() {
    let mut r = gifski::remap::Remapper::new(6, 5).unwrap();
    let pal = vec![RGBA8::new(10, 10, 10, 255), RGBA8::new(20, 20, 20, 255), RGBA8::new(0, 0, 0, 0)];
    // the first frame is sent whole
    let first = r.place_frame(ImgVec::new(vec![0u8; 30], 6, 5).unwrap(), pal.clone(), DisposalMethod::Keep, true, 1, 100_000);
    assert_eq!((first.frame_index, first.ordinal_frame_number, first.end_pts), (0, 1, 100_000));
    assert_eq!((first.frame.left, first.frame.top), (0, 0));
    assert_eq!((first.frame.image.width, first.frame.image.height), (6, 5));
    assert_eq!(first.frame.pal, [RGB8::new(10, 10, 10), RGB8::new(20, 20, 20), RGB8::new(71, 80, 76)]);
    assert_eq!(first.frame.transparent_index, Some(2));
    assert_eq!((first.screen_width, first.screen_height), (6, 5));
    // the second to its two changed pixels
    let mut px = vec![0u8; 30];
    px[2 * 6 + 3] = 1;
    px[3 * 6 + 1] = 1;
    let second = r.place_frame(ImgVec::new(px, 6, 5).unwrap(), pal.clone(), DisposalMethod::Keep, true, 2, 200_000);
    assert_eq!((second.frame.left, second.frame.top), (1, 2));
    assert_eq!((second.frame.image.width, second.frame.image.height), (3, 2));
    assert_eq!(second.frame.image.buf, [0, 0, 1, 1, 0, 0]);
    assert_eq!(r.screen.pixels.buf[2 * 6 + 3], RGBA8::new(20, 20, 20, 255));
    // one that changes nothing to the pixel in the corner
    let third = r.place_frame(ImgVec::new(vec![2u8; 30], 6, 5).unwrap(), pal.clone(), DisposalMethod::Keep, true, 3, 300_000);
    assert_eq!((third.frame.left, third.frame.top), (0, 0));
    assert_eq!((third.frame.image.width, third.frame.image.height), (1, 1));
    assert_eq!(third.frame_index, 2);
    // the last is sent whole again
    let last = r.place_frame(ImgVec::new(vec![2u8; 30], 6, 5).unwrap(), pal, DisposalMethod::Keep, false, 4, 400_000);
    assert_eq!((last.frame.image.width, last.frame.image.height), (6, 5));
    assert_eq!(r.frame_index, 4);
}

#[test]
fn lossy_writer_begins_with_the_clearing_code() {
    let pal = [RGB8::new(0, 0, 0), RGB8::new(255, 255, 255), RGB8::new(255, 0, 0), RGB8::new(0, 0, 255)];
    let pixels = [0u8, 1, 2, 3, 0];
    let image = GiflossyImage::new(&pixels, 5, 1, None, Some(&pal));
    let data = GiflossyWriter { loss: 0 }.write(&image, None).unwrap();
    // the clearing code 4, then 0, 1, 2 in three bits, 3, 0 and the end in four
    assert_eq!(data, [2, 0x44, 0x34, 0x50]);
}

#[test]
fn lossy_writer_draws_colours_of_the_palette_only() {
    // three colours are written with codes of two bits, where 3 is no colour
    let pal = [RGB8::new(0, 0, 0), RGB8::new(1, 1, 1), RGB8::new(2, 2, 2)];
    let pixels: Vec<u8> = (0..600).map(|i| ((i / 7 + i % 3) % 3) as u8).collect();
    let image = GiflossyImage::new(&pixels, 30, 20, None, Some(&pal));
    let data = GiflossyWriter { loss: 2000 }.write(&image, None).unwrap();
    let frame = LzwFrame {
        left: 0,
        top: 0,
        width: 30,
        height: 20,
        dispose: DisposalMethod::Keep,
        transparent: None,
        palette: vec![0; 12],
        buffer: data,
    };
    let decoded = decode_lzw(&frame);
    assert_eq!(decoded.len(), 600);
    assert!(decoded.iter().all(|&p| p < 3));
}

#[test]
fn differ_run_sends_what_the_steps_send() {
    let a = vec![RGBA8::new(1, 1, 1, 255), RGBA8::new(2, 2, 2, 255)];
    let b = vec![RGBA8::new(1, 1, 1, 255), RGBA8::new(9, 9, 9, 255)];
    assert!(matches!(Differ::run(Vec::new()), Err(Error::NoFrames)));
    // three times one picture: one frame, shown to the end of the last
    let sent = Differ::run(vec![
        diff_message(a.clone(), vec![7, 7], 1, 0, 100_000),
        diff_message(a.clone(), vec![0, 0], 2, 1_100_000, 100_000),
        diff_message(a.clone(), vec![0, 0], 3, 1_200_000, 100_000),
    ])
    .unwrap();
    assert_eq!(sent.len(), 1);
    assert_eq!((sent[0].frame_index, sent[0].ordinal_frame_number, sent[0].end_pts), (0, 3, 1_300_000));
    assert_eq!(sent[0].importance_map, [7, 7]);
    assert!(!sent[0].has_next_frame);
    assert_eq!(frame_delay(sent[0].end_pts, 0), 130);
    // a picture, then another twice
    let sent = Differ::run(vec![
        diff_message(a.clone(), vec![7, 7], 1, 0, 10_000),
        diff_message(b.clone(), vec![0, 5], 2, 1_200_000, 100_000),
        diff_message(b.clone(), vec![0, 0], 3, 1_300_000, 100_000),
    ])
    .unwrap();
    let ends: Vec<i64> = sent.iter().map(|m| m.end_pts).collect();
    assert_eq!(ends, [1_200_000, 1_400_000]);
    assert_eq!((frame_delay(ends[0], 0), frame_delay(ends[1], 120)), (120, 20));
    // pictures that change are all sent
    let sent = Differ::run(vec![
        diff_message(a.clone(), vec![7, 7], 1, 0, 10_000),
        diff_message(b.clone(), vec![0, 5], 2, 100_000, 100_000),
        diff_message(a.clone(), vec![0, 5], 3, 200_000, 100_000),
        diff_message(b.clone(), vec![0, 5], 4, 300_000, 100_000),
    ])
    .unwrap();
    let places: Vec<(u32, usize, i64)> =
        sent.iter().map(|m| (m.frame_index, m.ordinal_frame_number, m.end_pts)).collect();
    assert_eq!(places, [(0, 1, 100_000), (1, 2, 200_000), (2, 3, 300_000), (3, 4, 400_000)]);
}

#[test]
fn head_of_the_file_has_no_palette() {
    let mut with_table: Vec<u8> = b"GIF89a".to_vec();
    with_table.extend([0x34, 0x12, 7, 0, 0x80, 0, 0, 0, 0, 0, 0, 0, 0]);
    let plain = gifski::encoder::without_global_palette(with_table, 0x1234, 7);
    let mut expected: Vec<u8> = b"GIF89a".to_vec();
    expected.extend([0x34, 0x12, 7, 0, 0, 0, 0]);
    assert_eq!(plain, expected);
    // and a reader finds none
    let pal = [RGB8::new(1, 2, 3), RGB8::new(4, 5, 6)];
    let frame = lzw_frame(vec![0, 1], 2, 1, &pal, 100);
    let mut enc = RustEncoder::new();
    let mut all = enc.write_frame(&frame, 4, 3, 3, &Settings::default()).unwrap();
    all.extend(enc.finish().unwrap());
    let mut opts = gif::DecodeOptions::new();
    opts.set_color_output(gif::ColorOutput::Indexed);
    let mut decoder = opts.read_info(&all[..]).unwrap();
    assert!(decoder.global_palette().is_none());
    assert_eq!((decoder.width(), decoder.height()), (3, 3));
    let decoded = decoder.read_next_frame().unwrap().unwrap();
    assert_eq!(decoded.palette.as_deref(), Some(&[1u8, 2, 3, 4, 5, 6][..]));
}

#[test]
fn quantizer_is_given_map_transparency_and_background_by_rule() {
    assert!(gifski::quantize::gives_importance_map(true, false));
    assert!(gifski::quantize::gives_importance_map(false, true));
    assert!(gifski::quantize::gives_importance_map(true, true));
    assert!(!gifski::quantize::gives_importance_map(false, false));
    assert!(!gifski::quantize::needs_transparency(0, false));
    assert!(gifski::quantize::needs_transparency(0, true));
    assert!(gifski::quantize::needs_transparency(1, false));
    assert!(gifski::quantize::is_first_frame(0));
    assert!(!gifski::quantize::is_first_frame(1));
    let mut r = gifski::remap::Remapper::new(2, 2).unwrap();
    assert!(!r.remaps_over_screen());
    r.place_frame(ImgVec::new(vec![0u8; 4], 2, 2).unwrap(), vec![RGBA8::new(1, 1, 1, 255)], DisposalMethod::Keep, true, 1, 10_000);
    assert!(r.remaps_over_screen());
}

#[test]
fn reorder_hands_on_by_index_for_every_arrival_order() {
    let orders: [[usize; 4]; 6] =
        [[0, 1, 2, 3], [3, 2, 1, 0], [1, 0, 3, 2], [2, 3, 0, 1], [3, 0, 2, 1], [1, 3, 0, 2]];
    for order in orders {
        let arrivals: Vec<(usize, String)> =
            order.iter().map(|&i| (i, format!("item {i}"))).collect();
        assert_eq!(ordqueue::reorder(arrivals), ["item 0", "item 1", "item 2", "item 3"]);
    }
    assert!(ordqueue::reorder(Vec::<(usize, u8)>::new()).is_empty());
    assert_eq!(ordqueue::reorder(vec![(0, 'a')]), ['a']);
}
