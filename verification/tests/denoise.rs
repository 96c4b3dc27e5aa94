use gifski::blur::{less_smart_blur, median9, smart_blur};
use gifski::color::{RGB8, RGBA8};
use gifski::denoise::{
    avg8, cohort, color_diff, get_median, pixel_importance, Acc, Denoised, Denoiser,
};
use gifski::img::ImgVec;

fn px<T>(f: Denoised<T>) -> (RGBA8, T) {
    if let Denoised::Frame { frame, meta, .. } = f {
        (frame.buf[0], meta)
    } else {
        panic!("no frame")
    }
}

fn img1(p: RGBA8) -> ImgVec<RGBA8> {
    ImgVec::new(vec![p], 1, 1).unwrap()
}

fn push_frame_test<T>(d: &mut Denoiser<T>, frame: ImgVec<RGBA8>, meta: T) {
    let frame_blurred = smart_blur(&frame);
    assert!(d.push_frame(&frame, &frame_blurred, meta).is_ok());
}

#[test]
fn one() {
    let mut d = Denoiser::new(1, 1, 100).unwrap();
    let w = RGBA8::new(255, 255, 255, 255);
    let frame = img1(w);
    let frame_blurred = smart_blur(&frame);

    d.push_frame(&frame, &frame_blurred, 0).unwrap();
    assert!(matches!(d.pop(), Denoised::NotYet));
    d.flush();
    assert_eq!(px(d.pop()), (w, 0));
    assert!(matches!(d.pop(), Denoised::Done));
}

#[test]
fn two() {
    let mut d = Denoiser::new(1, 1, 100).unwrap();
    let w = RGBA8::new(254, 253, 252, 255);
    let b = RGBA8::new(8, 7, 0, 255);
    push_frame_test(&mut d, img1(w), 0);
    push_frame_test(&mut d, img1(b), 1);
    assert!(matches!(d.pop(), Denoised::NotYet));
    d.flush();
    assert_eq!(px(d.pop()), (w, 0));
    assert_eq!(px(d.pop()), (b, 1));
    assert!(matches!(d.pop(), Denoised::Done));
}

#[test]
fn three() {
    let mut d = Denoiser::new(1, 1, 100).unwrap();
    let w = RGBA8::new(254, 253, 252, 255);
    let b = RGBA8::new(8, 7, 0, 255);
    push_frame_test(&mut d, img1(w), 0);
    push_frame_test(&mut d, img1(b), 1);
    push_frame_test(&mut d, img1(b), 2);
    assert!(matches!(d.pop(), Denoised::NotYet));
    d.flush();
    assert_eq!(px(d.pop()), (w, 0));
    assert_eq!(px(d.pop()), (b, 1));
    assert_eq!(px(d.pop()), (b, 2));
    assert!(matches!(d.pop(), Denoised::Done));
}

#[test]
fn four() {
    let mut d = Denoiser::new(1, 1, 100).unwrap();
    let w = RGBA8::new(254, 253, 252, 255);
    let b = RGBA8::new(8, 7, 0, 255);
    let t = RGBA8::new(0, 0, 0, 0);
    push_frame_test(&mut d, img1(w), 0);
    push_frame_test(&mut d, img1(t), 1);
    push_frame_test(&mut d, img1(b), 2);
    push_frame_test(&mut d, img1(w), 3);
    assert!(matches!(d.pop(), Denoised::NotYet));
    d.flush();
    assert_eq!(px(d.pop()), (w, 0));
    assert_eq!(px(d.pop()), (t, 1));
    assert_eq!(px(d.pop()), (b, 2));
    assert_eq!(px(d.pop()), (w, 3));
    assert!(matches!(d.pop(), Denoised::Done));
}

#[test]
fn five() {
    let mut d = Denoiser::new(1, 1, 100).unwrap();
    let w = RGBA8::new(254, 253, 252, 255);
    let b = RGBA8::new(8, 7, 0, 255);
    let t = RGBA8::new(0, 0, 0, 0);
    push_frame_test(&mut d, img1(w), 0);
    push_frame_test(&mut d, img1(t), 1);
    push_frame_test(&mut d, img1(b), 2);
    push_frame_test(&mut d, img1(b), 3);
    assert!(matches!(d.pop(), Denoised::NotYet));
    push_frame_test(&mut d, img1(w), 4);
    assert_eq!(px(d.pop()), (w, 0));
    d.flush();
    assert_eq!(px(d.pop()), (t, 1));
    assert_eq!(px(d.pop()), (b, 2));
    assert_eq!(px(d.pop()), (b, 3));
    assert_eq!(px(d.pop()), (w, 4));
    assert!(matches!(d.pop(), Denoised::Done));
}

#[test]
fn six() {
    let mut d = Denoiser::new(1, 1, 100).unwrap();
    let w = RGBA8::new(254, 253, 252, 255);
    let b = RGBA8::new(8, 7, 0, 255);
    let t = RGBA8::new(0, 0, 0, 0);
    let x = RGBA8::new(4, 5, 6, 255);
    push_frame_test(&mut d, img1(w), 0);
    assert!(matches!(d.pop(), Denoised::NotYet));
    push_frame_test(&mut d, img1(b), 1);
    assert!(matches!(d.pop(), Denoised::NotYet));
    push_frame_test(&mut d, img1(b), 2);
    assert!(matches!(d.pop(), Denoised::NotYet));
    push_frame_test(&mut d, img1(t), 3);
    assert!(matches!(d.pop(), Denoised::NotYet));
    push_frame_test(&mut d, img1(w), 4);
    assert_eq!(px(d.pop()), (w, 0));
    push_frame_test(&mut d, img1(x), 5);
    d.flush();
    assert_eq!(px(d.pop()), (b, 1));
    assert_eq!(px(d.pop()), (b, 2));
    assert_eq!(px(d.pop()), (t, 3));
    assert_eq!(px(d.pop()), (w, 4));
    assert_eq!(px(d.pop()), (x, 5));
    assert!(matches!(d.pop(), Denoised::Done));
}

#[test]
fn many() {
    let mut d = Denoiser::new(1, 1, 100).unwrap();
    let w = RGBA8::new(255, 254, 253, 255);
    let b = RGBA8::new(1, 2, 3, 255);
    let t = RGBA8::new(0, 0, 0, 0);
    push_frame_test(&mut d, img1(w), "w0");
    assert!(matches!(d.pop(), Denoised::NotYet));
    push_frame_test(&mut d, img1(w), "w1");
    assert!(matches!(d.pop(), Denoised::NotYet));
    push_frame_test(&mut d, img1(b), "b2");
    assert!(matches!(d.pop(), Denoised::NotYet));
    push_frame_test(&mut d, img1(b), "b3");
    assert!(matches!(d.pop(), Denoised::NotYet));
    push_frame_test(&mut d, img1(b), "b4");
    assert_eq!(px(d.pop()), (w, "w0"));
    push_frame_test(&mut d, img1(t), "t5");
    assert_eq!(px(d.pop()), (w, "w1"));
    push_frame_test(&mut d, img1(b), "b6");
    assert_eq!(px(d.pop()), (b, "b2"));
    d.flush();
    assert_eq!(px(d.pop()), (b, "b3"));
    assert_eq!(px(d.pop()), (b, "b4"));
    assert_eq!(px(d.pop()), (t, "t5"));
    assert_eq!(px(d.pop()), (b, "b6"));
    assert!(matches!(d.pop(), Denoised::Done));
}

#[test]
fn denoiser_refuses_another_size() {
    let mut d = Denoiser::new(2, 1, 100).unwrap();
    let w = RGBA8::new(255, 255, 255, 255);
    let frame = img1(w);
    let blurred = smart_blur(&frame);
    assert!(d.push_frame(&frame, &blurred, 0).is_err());
    assert!(matches!(d.pop(), Denoised::Done));
}

#[test]
fn denoiser_threshold_follows_quality() {
    assert_eq!(Denoiser::<u8>::new(1, 1, 100).unwrap().threshold, 25);
    assert_eq!(Denoiser::<u8>::new(1, 1, 1).unwrap().threshold, 55 * 55);
    assert_eq!(Denoiser::<u8>::new(1, 1, 50).unwrap().threshold, 900);
}

#[test]
fn denoiser_gives_every_frame_back() {
    for n in 1..12usize {
        let mut d = Denoiser::new(2, 2, 80).unwrap();
        let mut out = 0;
        for i in 0..n {
            let v = (i * 20) as u8;
            let frame = ImgVec::new(vec![RGBA8::new(v, v, 255 - v, 255); 4], 2, 2).unwrap();
            let blurred = less_smart_blur(&frame);
            d.push_frame(&frame, &blurred, i).unwrap();
            if let Denoised::Frame { meta, frame, importance_map } = d.pop() {
                assert_eq!(meta, out);
                assert_eq!(frame.buf.len(), 4);
                assert_eq!(importance_map.buf.len(), 4);
                out += 1;
            }
        }
        d.flush();
        while let Denoised::Frame { meta, .. } = d.pop() {
            assert_eq!(meta, out);
            out += 1;
        }
        assert_eq!(out, n);
        assert!(matches!(d.pop(), Denoised::Done));
    }
}

#[test]
fn color_diff_weighs_channels() {
    let a = RGB8::new(10, 20, 30);
    assert_eq!(color_diff(a, a), 0);
    assert_eq!(color_diff(a, RGB8::new(11, 20, 30)), 2);
    assert_eq!(color_diff(a, RGB8::new(10, 22, 30)), 12);
    assert_eq!(color_diff(a, RGB8::new(10, 20, 27)), 9);
    assert_eq!(color_diff(RGB8::new(0, 0, 0), RGB8::new(255, 255, 255)), 255 * 255 * 6);
    assert_eq!(color_diff(RGB8::new(255, 255, 255), RGB8::new(0, 0, 0)), 390150);
}

#[test]
fn cohort_splits_colors() {
    assert!(!cohort(RGB8::new(0, 0, 0)));
    assert!(cohort(RGB8::new(0, 0, 128)));
    assert!(cohort(RGB8::new(200, 50, 0)));
    assert!(!cohort(RGB8::new(200, 50, 200)));
}

#[test]
fn pixel_importance_values() {
    assert_eq!(pixel_importance(0, 25, 10, 110), 10);
    assert_eq!(pixel_importance(25, 25, 10, 110), 10);
    // (1225 - 25) * 110 / (25 * 48) = 110
    assert_eq!(pixel_importance(1225, 25, 10, 110), 120);
    // (625 - 25) * 110 / 1200 = 55
    assert_eq!(pixel_importance(625, 25, 10, 110), 65);
    assert_eq!(pixel_importance(1 << 20, 25, 50, 205), 255);
    assert_eq!(pixel_importance(u32::MAX, 1, 0, 255), 255);
    assert_eq!(pixel_importance(100, 900, 1, 0), 1);
}

#[test]
fn avg8_rounds_down() {
    assert_eq!(avg8(0, 0), 0);
    assert_eq!(avg8(1, 2), 1);
    assert_eq!(avg8(255, 255), 255);
    assert_eq!(avg8(255, 0), 127);
}

#[test]
fn get_median_of_every_length() {
    let s = [50u8, 10, 40, 20, 30];
    assert_eq!(get_median(&s, 1), 50);
    assert_eq!(get_median(&s, 2), 30);
    assert_eq!(get_median(&s, 3), 40);
    assert_eq!(get_median(&s, 4), 30);
    assert_eq!(get_median(&s, 5), 30);
    let t = [7u8, 7, 7, 200, 0];
    assert_eq!(get_median(&t, 3), 7);
    assert_eq!(get_median(&t, 4), 7);
    assert_eq!(get_median(&t, 5), 7);
}

#[test]
fn get_median_agrees_with_sorting() {
    let mut seed = 12345u32;
    for _ in 0..2000 {
        let mut s = [0u8; 5];
        for v in s.iter_mut() {
            seed = seed.wrapping_mul(1664525).wrapping_add(1013904223);
            *v = (seed >> 24) as u8;
        }
        for len in 1..=5usize {
            let mut sorted = s[..len].to_vec();
            sorted.sort_unstable();
            let expected = if len % 2 == 1 {
                sorted[len / 2]
            } else {
                ((sorted[len / 2 - 1] as u16 + sorted[len / 2] as u16) / 2) as u8
            };
            assert_eq!(get_median(&s, len), expected);
        }
    }
}

#[test]
fn median9_agrees_with_sorting() {
    let mut seed = 99u32;
    for _ in 0..2000 {
        let mut s = [0u8; 9];
        for v in s.iter_mut() {
            seed = seed.wrapping_mul(1664525).wrapping_add(1013904223);
            *v = (seed >> 28) as u8;
        }
        let mut sorted = s;
        sorted.sort_unstable();
        assert_eq!(median9(&s), sorted[4]);
    }
}

#[test]
fn acc_window_shifts() {
    let mut a = Acc::clear();
    assert_eq!(a.get(0), None);
    assert_eq!(a.get(4), None);
    assert_eq!(a.get(5), None);
    a.append(RGBA8::new(1, 2, 3, 255), RGB8::new(4, 5, 6));
    assert_eq!(a.get(4), Some((RGB8::new(1, 2, 3), RGB8::new(4, 5, 6))));
    assert_eq!(a.get(3), None);
    a.append(RGBA8::new(9, 9, 9, 127), RGB8::new(9, 9, 9));
    assert_eq!(a.get(3), Some((RGB8::new(1, 2, 3), RGB8::new(4, 5, 6))));
    assert_eq!(a.get(4), None);
    a.append(RGBA8::new(7, 8, 9, 128), RGB8::new(1, 1, 1));
    assert_eq!(a.get(2), Some((RGB8::new(1, 2, 3), RGB8::new(4, 5, 6))));
    assert_eq!(a.get(3), None);
    assert_eq!(a.get(4), Some((RGB8::new(7, 8, 9), RGB8::new(1, 1, 1))));
}

#[test]
fn acc_next_pixel_steady_pixel_commits_once() {
    let mut a = Acc::clear();
    let c = RGBA8::new(100, 110, 120, 255);
    for _ in 0..5 {
        a.append(c, c.rgb());
    }
    let first = a.next_pixel(25, false);
    assert_eq!(first.color, c);
    // no background yet: the difference is as large as can be, and the
    // pixel stays for the four frames that follow
    assert_eq!(first.importance, 205);
    assert_eq!(a.can_stay_for, 4);
    assert_eq!(a.stayed_for, 0);
    a.append(c, c.rgb());
    let second = a.next_pixel(25, true);
    assert_eq!(second.color, c);
    assert_eq!(second.importance, 1);
    assert_eq!(a.stayed_for, 1);
}

#[test]
fn acc_next_pixel_clears_background() {
    let mut a = Acc::clear();
    let c = RGBA8::new(100, 110, 120, 255);
    a.append(c, c.rgb());
    for _ in 0..4 {
        a.append(RGBA8::new(0, 0, 0, 0), RGB8::new(0, 0, 0));
    }
    let first = a.next_pixel(25, false);
    assert_eq!(first.color, c);
    a.append(RGBA8::new(0, 0, 0, 0), RGB8::new(0, 0, 0));
    let second = a.next_pixel(25, true);
    assert_eq!(second.color, RGBA8::new(0, 0, 0, 0));
    assert_eq!(second.importance, 1);
    a.append(RGBA8::new(0, 0, 0, 0), RGB8::new(0, 0, 0));
    let third = a.next_pixel(25, false);
    assert_eq!(third.color, RGBA8::new(0, 0, 0, 0));
    assert_eq!(third.importance, 0);
}

#[test]
fn blur_of_flat_image_is_flat() {
    let c = RGBA8::new(10, 20, 30, 255);
    let frame = ImgVec::new(vec![c; 12], 4, 3).unwrap();
    for blurred in [smart_blur(&frame), less_smart_blur(&frame)] {
        assert_eq!(blurred.width, 4);
        assert_eq!(blurred.height, 3);
        assert!(blurred.buf.iter().all(|p| *p == RGB8::new(10, 20, 30)));
    }
}

#[test]
fn blur_marks_transparent_pixels() {
    let c = RGBA8::new(10, 20, 30, 255);
    let t = RGBA8::new(1, 2, 3, 0);
    let frame = ImgVec::new(vec![c, t, c, c], 2, 2).unwrap();
    let blurred = smart_blur(&frame);
    assert_eq!(blurred.buf[1], RGB8::new(255, 0, 255));
    assert_eq!(blurred.buf[0], RGB8::new(10, 20, 30));
}

#[test]
fn blur_smooths_noise_and_keeps_edges() {
    // one pixel a little off among equal ones is smoothed away
    let c = RGBA8::new(100, 100, 100, 255);
    let mut px = vec![c; 9];
    px[4] = RGBA8::new(104, 100, 100, 255);
    let frame = ImgVec::new(px, 3, 3).unwrap();
    assert_eq!(smart_blur(&frame).buf[4], RGB8::new(100, 100, 100));
    // (8 * 100 + 104) / 9 = 100
    assert_eq!(less_smart_blur(&frame).buf[4], RGB8::new(100, 100, 100));
    // one far off is kept
    let mut px = vec![c; 9];
    px[4] = RGBA8::new(255, 0, 0, 255);
    let frame = ImgVec::new(px, 3, 3).unwrap();
    assert_eq!(smart_blur(&frame).buf[4], RGB8::new(255, 0, 0));
    assert_eq!(less_smart_blur(&frame).buf[4], RGB8::new(255, 0, 0));
    // the mean moves the neighbour of a pixel that is far off
    // (8 * 100 + 255) / 9 = 117, (8 * 100 + 0) / 9 = 88
    assert_eq!(less_smart_blur(&frame).buf[0], RGB8::new(117, 88, 88));
}

#[test]
fn acc_next_pixel_restless_pixel_has_importance_up_to_110() {
    let mut a = Acc::clear();
    let c = RGBA8::new(100, 110, 120, 255);
    a.append(c, c.rgb());
    for _ in 0..4 {
        a.append(RGBA8::new(0, 0, 0, 0), RGB8::new(0, 0, 0));
    }
    // no background yet and no later frame shares the colour
    let first = a.next_pixel(25, false);
    assert_eq!(first.color, c);
    assert_eq!(first.importance, 110);
    assert_eq!(a.can_stay_for, 0);
}

#[test]
fn denoiser_keeps_a_picture_that_does_not_change() {
    let pixels = vec![
        RGBA8::new(10, 200, 30, 255),
        RGBA8::new(250, 2, 3, 128),
        RGBA8::new(9, 9, 9, 127),
        RGBA8::new(77, 78, 79, 0),
        RGBA8::new(0, 0, 0, 255),
        RGBA8::new(255, 255, 255, 200),
    ];
    let drawn: Vec<RGBA8> = pixels
        .iter()
        .map(|p| if p.a >= 128 { RGBA8::new(p.r, p.g, p.b, 255) } else { RGBA8::new(0, 0, 0, 0) })
        .collect();
    for quality in [1u8, 50, 100] {
        for n in 1..10usize {
            let mut d = Denoiser::new(3, 2, quality).unwrap();
            let frame = ImgVec::new(pixels.clone(), 3, 2).unwrap();
            let blurred = smart_blur(&frame);
            let mut out = 0;
            for i in 0..n {
                d.push_frame(&frame, &blurred, i).unwrap();
                if let Denoised::Frame { frame, .. } = d.pop() {
                    assert_eq!(frame.buf, drawn);
                    out += 1;
                }
            }
            d.flush();
            while let Denoised::Frame { frame, .. } = d.pop() {
                assert_eq!(frame.buf, drawn);
                out += 1;
            }
            assert_eq!(out, n);
        }
    }
}
