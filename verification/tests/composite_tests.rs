use pixel_canvas::Canvas;
use pixel_canvas::OnionPass;

fn pixel(data: &[u8], width: u32, x: u32, y: u32) -> (u8, u8, u8, u8) {
    let i = ((y * width + x) * 4) as usize;
    (data[i], data[i + 1], data[i + 2], data[i + 3])
}

fn composite(c: &Canvas) -> Vec<u8> {
    c.get_composite_data(c.blank_composite())
}

/// One channel of the "over" operator, computed in floating point and
/// truncated to a byte.
fn over_channel(dst: u8, src: u8, alpha: f32) -> u8 {
    ((1.0 - alpha) * dst as f32 + alpha * src as f32).min(255.0) as u8
}

fn over_alpha(dst: u8, alpha: f32) -> u8 {
    (dst as f32 + (255.0 - dst as f32) * alpha).min(255.0) as u8
}

#[test]
fn composite_has_four_bytes_per_pixel() {
    for (w, h) in [(0u32, 0u32), (1, 1), (4, 4), (7, 3), (1, 9), (16, 16), (0, 5)] {
        let mut c = Canvas::new(w, h);
        assert_eq!(c.blank_composite().len() as u32, w * h * 4);
        assert_eq!(composite(&c).len() as u32, c.width() * c.height() * 4);
        c.add_layer();
        c.draw_line(0, 0, 9, 9, 0x445566, false, 3);
        c.commit_drawing();
        c.add_frame();
        assert_eq!(composite(&c).len() as u32, c.width() * c.height() * 4);
    }
}

#[test]
fn composite_of_hidden_layers_is_transparent() {
    let mut c = Canvas::new(4, 4);
    c.draw_line(0, 0, 3, 3, 0xFF0000, false, 3);
    c.commit_drawing();
    c.add_layer();
    c.set_active_layer(1);
    c.draw_line(3, 0, 0, 3, 0x00FF00, false, 3);
    c.commit_drawing();
    assert!(composite(&c).iter().any(|&b| b != 0));
    c.toggle_layer_visibility(0);
    c.toggle_layer_visibility(1);
    assert_eq!(composite(&c), vec![0u8; 64]);
    // over another underlay, the underlay shows unchanged
    let underlay: Vec<u8> = (0..64u8).collect();
    assert_eq!(c.get_composite_data(underlay.clone()), underlay);
}

#[test]
fn red_line_over_white_fill() {
    let mut c = Canvas::new(4, 4);
    // opaque-white initial fill
    c.draw_line(0, 0, 3, 3, 0xFFFFFF, false, 16);
    c.commit_drawing();
    assert!(c.layer_data(0, 0).expect("layer").iter().all(|&b| b == 255));

    c.draw_line(0, 0, 3, 0, 0xFF0000, false, 1);
    c.commit_drawing();
    let image = composite(&c);
    assert_eq!(image.len(), 64);
    for x in 0..4 {
        assert_eq!(pixel(&image, 4, x, 0), (255, 0, 0, 255));
    }
    for y in 1..4 {
        for x in 0..4 {
            assert_eq!(pixel(&image, 4, x, y), (255, 255, 255, 255));
        }
    }
}

#[test]
fn red_line_on_a_transparent_canvas() {
    let mut c = Canvas::new(4, 4);
    c.draw_line(0, 0, 3, 0, 0xFF0000, false, 1);
    c.commit_drawing();
    let image = composite(&c);
    for x in 0..4 {
        assert_eq!(pixel(&image, 4, x, 0), (255, 0, 0, 255));
    }
    for y in 1..4 {
        for x in 0..4 {
            assert_eq!(pixel(&image, 4, x, y), (0, 0, 0, 0));
        }
    }
}

#[test]
fn blue_disk_on_a_second_layer_covers_the_layer_below() {
    let mut c = Canvas::new(5, 5);
    c.draw_line(0, 0, 4, 4, 0xFFFF00, false, 20);
    c.commit_drawing();
    assert_eq!(c.add_layer(), 1);
    c.set_active_layer(1);
    // a brush of size 2 has radius 1
    c.draw_line(2, 2, 2, 2, 0x0000FF, false, 2);
    c.commit_drawing();
    let image = composite(&c);
    assert_eq!(pixel(&image, 5, 2, 2), (0, 0, 255, 255));
    for (x, y) in [(1u32, 2u32), (3, 2), (2, 1), (2, 3)] {
        assert_eq!(pixel(&image, 5, x, y), (0, 0, 255, 255));
    }
    // elsewhere the bottom layer shows through
    for (x, y) in [(0u32, 0u32), (1, 1), (3, 3), (4, 2), (2, 4)] {
        assert_eq!(pixel(&image, 5, x, y), (255, 255, 0, 255));
    }
    // the bottom layer itself is untouched
    assert!(c.layer_data(0, 0).expect("layer").chunks(4).all(|p| p == [255, 255, 0, 255]));
}

#[test]
fn blue_disk_over_a_transparent_layer() {
    let mut c = Canvas::new(5, 5);
    c.add_layer();
    c.set_active_layer(1);
    c.draw_line(2, 2, 2, 2, 0x0000FF, false, 2);
    c.commit_drawing();
    let image = composite(&c);
    assert_eq!(pixel(&image, 5, 2, 2), (0, 0, 255, 255));
    assert_eq!(pixel(&image, 5, 0, 0), (0, 0, 0, 0));
}

#[test]
fn later_layers_composite_on_top() {
    let mut c = Canvas::new(3, 1);
    c.add_layer();
    c.add_layer();
    c.set_active_layer(0);
    c.draw_line(0, 0, 2, 0, 0xFF0000, false, 1);
    c.commit_drawing();
    c.set_active_layer(1);
    c.draw_line(1, 0, 2, 0, 0x00FF00, false, 1);
    c.commit_drawing();
    c.set_active_layer(2);
    c.draw_line(2, 0, 2, 0, 0x0000FF, false, 1);
    c.commit_drawing();
    assert_eq!(composite(&c), vec![255, 0, 0, 255, 0, 255, 0, 255, 0, 0, 255, 255]);
    // hiding the middle layer lets the bottom one show at its pixel
    c.toggle_layer_visibility(1);
    assert_eq!(composite(&c), vec![255, 0, 0, 255, 255, 0, 0, 255, 0, 0, 255, 255]);
    // hiding the top one too
    c.toggle_layer_visibility(2);
    assert_eq!(composite(&c), vec![255, 0, 0, 255, 255, 0, 0, 255, 255, 0, 0, 255]);
}

#[test]
fn erased_pixels_let_lower_layers_show() {
    let mut c = Canvas::new(2, 1);
    c.draw_line(0, 0, 1, 0, 0xFF0000, false, 1);
    c.commit_drawing();
    c.add_layer();
    c.set_active_layer(1);
    c.draw_line(0, 0, 1, 0, 0x00FF00, false, 1);
    c.commit_drawing();
    c.draw_line(1, 0, 1, 0, 0, true, 1);
    c.commit_drawing();
    assert_eq!(composite(&c), vec![0, 255, 0, 255, 255, 0, 0, 255]);
}

#[test]
fn composite_shows_the_current_frame_only() {
    let mut c = Canvas::new(2, 1);
    c.draw_line(0, 0, 0, 0, 0xFF0000, false, 1);
    c.commit_drawing();
    c.add_frame();
    c.draw_line(1, 0, 1, 0, 0x0000FF, false, 1);
    c.commit_drawing();
    assert_eq!(composite(&c), vec![0, 0, 0, 0, 0, 0, 255, 255]);
    c.set_current_frame(0);
    assert_eq!(composite(&c), vec![255, 0, 0, 255, 0, 0, 0, 0]);
}

#[test]
fn composite_lays_the_current_frame_over_the_underlay() {
    let mut c = Canvas::new(2, 1);
    c.draw_line(1, 0, 1, 0, 0x0000FF, false, 1);
    c.commit_drawing();
    let underlay = vec![10, 20, 30, 40, 50, 60, 70, 80];
    assert_eq!(c.get_composite_data(underlay), vec![10, 20, 30, 40, 0, 0, 255, 255]);
}

#[test]
fn composite_frame_lays_any_frame_over_an_image() {
    let mut c = Canvas::new(2, 1);
    c.draw_line(0, 0, 0, 0, 0xFF0000, false, 1);
    c.commit_drawing();
    c.add_frame();
    c.draw_line(1, 0, 1, 0, 0x0000FF, false, 1);
    c.commit_drawing();

    let mut image = vec![1, 2, 3, 4, 5, 6, 7, 8];
    c.composite_frame(&mut image, 0);
    assert_eq!(image, vec![255, 0, 0, 255, 5, 6, 7, 8]);
    c.composite_frame(&mut image, 1);
    assert_eq!(image, vec![255, 0, 0, 255, 0, 0, 255, 255]);
}

#[test]
fn composite_frame_ignores_missing_frames() {
    let mut c = Canvas::new(2, 1);
    c.draw_line(0, 0, 1, 0, 0xFF0000, false, 1);
    c.commit_drawing();
    let mut image = vec![1, 2, 3, 4, 5, 6, 7, 8];
    c.composite_frame(&mut image, 1);
    assert_eq!(image, vec![1, 2, 3, 4, 5, 6, 7, 8]);
    c.composite_frame(&mut image, usize::MAX);
    assert_eq!(image, vec![1, 2, 3, 4, 5, 6, 7, 8]);
}

#[test]
fn full_strength_overlay_agrees_with_the_float_formula() {
    // An opaque source has alpha 1.0, a transparent one 0.0; for both the
    // blend is exact for every byte below.
    let mut opaque = Canvas::new(1, 1);
    let transparent = Canvas::new(1, 1);
    for src in 0..=255u32 {
        opaque.draw_line(0, 0, 0, 0, (src << 16) | (src << 8) | src, false, 1);
        opaque.commit_drawing();
        for dst in 0..=255u8 {
            let underlay = vec![dst, dst, dst, dst];
            let s = src as u8;
            let one = 255.0f32 / 255.0;
            assert_eq!(
                opaque.get_composite_data(underlay.clone()),
                vec![
                    over_channel(dst, s, one),
                    over_channel(dst, s, one),
                    over_channel(dst, s, one),
                    over_alpha(dst, one),
                ]
            );
            let zero = 0.0f32 / 255.0;
            assert_eq!(
                transparent.get_composite_data(underlay.clone()),
                vec![
                    over_channel(dst, 0, zero),
                    over_channel(dst, 0, zero),
                    over_channel(dst, 0, zero),
                    over_alpha(dst, zero),
                ]
            );
        }
    }
}

#[test]
fn onion_passes_follow_the_requests() {
    let mut c = Canvas::new(2, 2);
    c.add_layer(); // frame 0: two layers
    c.add_frame(); // frame 1: one layer
    c.add_frame(); // frame 2: three layers, the middle one hidden
    c.add_layer();
    c.add_layer();
    c.toggle_layer_visibility(1);
    c.add_frame(); // frame 3
    c.set_current_frame(1);

    let passes = c.onion_skin_passes(&vec![2, 0, 3]);
    assert_eq!(
        passes,
        vec![
            OnionPass { frame: 2, layer: 0, distance: 1 },
            OnionPass { frame: 2, layer: 2, distance: 1 },
            OnionPass { frame: 0, layer: 0, distance: 1 },
            OnionPass { frame: 0, layer: 1, distance: 1 },
            OnionPass { frame: 3, layer: 0, distance: 2 },
        ]
    );
}

#[test]
fn onion_passes_skip_the_current_and_missing_frames() {
    let mut c = Canvas::new(2, 2);
    c.add_frame();
    c.add_frame();
    c.set_current_frame(2);
    assert_eq!(c.onion_skin_passes(&vec![]), vec![]);
    assert_eq!(c.onion_skin_passes(&vec![2]), vec![]);
    assert_eq!(c.onion_skin_passes(&vec![3, 100, usize::MAX]), vec![]);
    assert_eq!(
        c.onion_skin_passes(&vec![2, 0, 7, 2, 1]),
        vec![
            OnionPass { frame: 0, layer: 0, distance: 2 },
            OnionPass { frame: 1, layer: 0, distance: 1 },
        ]
    );
}

#[test]
fn onion_passes_repeat_a_frame_requested_twice() {
    let mut c = Canvas::new(2, 2);
    c.add_frame();
    assert_eq!(
        c.onion_skin_passes(&vec![0, 0]),
        vec![
            OnionPass { frame: 0, layer: 0, distance: 1 },
            OnionPass { frame: 0, layer: 0, distance: 1 },
        ]
    );
}

#[test]
fn onion_passes_skip_hidden_layers() {
    let mut c = Canvas::new(2, 2);
    c.toggle_layer_visibility(0);
    c.add_frame();
    assert_eq!(c.onion_skin_passes(&vec![0]), vec![]);
    c.set_current_frame(0);
    c.toggle_layer_visibility(0);
    c.set_current_frame(1);
    assert_eq!(c.onion_skin_passes(&vec![0]), vec![OnionPass { frame: 0, layer: 0, distance: 1 }]);
}

#[test]
fn onion_pass_distance_is_the_gap_between_frames() {
    let mut c = Canvas::new(1, 1);
    for _ in 0..9 {
        c.add_frame();
    }
    c.set_current_frame(4);
    let requests: Vec<usize> = (0..10).collect();
    let passes = c.onion_skin_passes(&requests);
    assert_eq!(passes.len(), 9);
    for pass in passes.iter() {
        assert_ne!(pass.frame, 4);
        let gap = if pass.frame < 4 { 4 - pass.frame } else { pass.frame - 4 };
        assert_eq!(pass.distance, gap);
        assert!(pass.distance >= 1);
        assert!(c.layer_data(pass.frame, pass.layer).is_some());
    }
}

#[test]
fn onion_strength_fades_with_distance_and_stays_below_three_tenths() {
    let mut c = Canvas::new(1, 1);
    for _ in 0..40 {
        c.add_frame();
    }
    c.set_current_frame(0);
    let requests: Vec<usize> = (0..41).collect();
    let passes = c.onion_skin_passes(&requests);
    assert_eq!(passes.len(), 40);
    let mut previous = f32::INFINITY;
    for pass in passes.iter() {
        let strength = (0.3f32 / pass.distance as f32).min(0.3);
        assert!(strength <= 0.3);
        assert!(strength > 0.0);
        assert!(strength < previous || pass.distance == 1);
        // three tenths divided by the distance, as exact fractions
        assert!(3 * 10 <= 3 * (10 * pass.distance));
        previous = strength;
    }
    assert_eq!((0.3f32 / passes[0].distance as f32).min(0.3), 0.3);
    assert_eq!((0.3f32 / passes[1].distance as f32).min(0.3), 0.15);
}

#[test]
fn onion_skins_blended_by_the_caller_lie_beneath_the_current_frame() {
    let mut c = Canvas::new(2, 1);
    // frame 0: both pixels red
    c.draw_line(0, 0, 1, 0, 0xFF0000, false, 1);
    c.commit_drawing();
    // frame 1: right pixel blue
    c.add_frame();
    c.draw_line(1, 0, 1, 0, 0x0000FF, false, 1);
    c.commit_drawing();

    let mut image = c.blank_composite();
    for pass in c.onion_skin_passes(&vec![0, 1]) {
        let strength = (0.3f32 / pass.distance as f32).min(0.3);
        let data = c.layer_data(pass.frame, pass.layer).expect("layer of a pass");
        for (i, px) in data.chunks_exact(4).enumerate() {
            let alpha = px[3] as f32 / 255.0 * strength;
            for j in 0..3 {
                image[i * 4 + j] = over_channel(image[i * 4 + j], px[j], alpha);
            }
            image[i * 4 + 3] = over_alpha(image[i * 4 + 3], alpha);
        }
    }
    let image = c.get_composite_data(image);
    // left: faded red from frame 0; right: the current frame at full strength
    assert_eq!(pixel(&image, 2, 0, 0), (76, 0, 0, 76));
    assert_eq!(pixel(&image, 2, 1, 0), (0, 0, 255, 255));
}
