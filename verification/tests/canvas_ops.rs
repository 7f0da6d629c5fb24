use pixel_canvas::Canvas;

fn pixel(data: &[u8], width: u32, x: u32, y: u32) -> (u8, u8, u8, u8) {
    let i = ((y * width + x) * 4) as usize;
    (data[i], data[i + 1], data[i + 2], data[i + 3])
}

#[test]
fn new_canvas_has_one_frame_and_one_layer() {
    let c = Canvas::new(7, 5);
    assert_eq!(c.width(), 7);
    assert_eq!(c.height(), 5);
    assert_eq!(c.frame_count(), 1);
    assert_eq!(c.get_current_frame(), 0);
    assert_eq!(c.layer_count(), 1);
    assert_eq!(c.get_active_layer(), 0);
    assert!(c.is_layer_visible(0));
}

#[test]
fn new_canvas_is_transparent() {
    let c = Canvas::new(3, 2);
    let layer = c.layer_data(0, 0).expect("first layer");
    assert_eq!(layer.len(), 3 * 2 * 4);
    assert!(layer.iter().all(|&b| b == 0));
    let image = c.get_composite_data(c.blank_composite());
    assert_eq!(image, vec![0u8; 24]);
}

#[test]
fn empty_canvas_works() {
    let mut c = Canvas::new(0, 0);
    assert_eq!(c.blank_composite().len(), 0);
    c.draw_line(0, 0, 3, 3, 0xFFFFFF, false, 5);
    c.commit_drawing();
    assert_eq!(c.get_composite_data(c.blank_composite()).len(), 0);
    assert_eq!(c.add_layer(), 1);
    assert_eq!(c.add_frame(), 1);

    let mut flat = Canvas::new(5, 0);
    flat.draw_line(0, 0, 4, 0, 0xFFFFFF, false, 3);
    flat.commit_drawing();
    assert_eq!(flat.get_composite_data(flat.blank_composite()).len(), 0);
}

#[test]
fn add_layer_returns_index_of_new_top_layer() {
    let mut c = Canvas::new(2, 2);
    assert_eq!(c.add_layer(), 1);
    assert_eq!(c.add_layer(), 2);
    assert_eq!(c.layer_count(), 3);
    // the active layer does not move
    assert_eq!(c.get_active_layer(), 0);
    // the new layers are visible and transparent
    assert!(c.is_layer_visible(1));
    assert!(c.is_layer_visible(2));
    assert!(c.layer_data(0, 2).expect("layer 2").iter().all(|&b| b == 0));
    assert_eq!(c.layer_data(0, 2).expect("layer 2").len(), 16);
}

#[test]
fn set_active_layer_ignores_missing_layers() {
    let mut c = Canvas::new(2, 2);
    c.add_layer();
    c.add_layer();
    c.set_active_layer(2);
    assert_eq!(c.get_active_layer(), 2);
    c.set_active_layer(3);
    assert_eq!(c.get_active_layer(), 2);
    c.set_active_layer(usize::MAX);
    assert_eq!(c.get_active_layer(), 2);
    c.set_active_layer(0);
    assert_eq!(c.get_active_layer(), 0);
}

#[test]
fn remove_only_layer_is_a_no_op() {
    let mut c = Canvas::new(2, 2);
    c.draw_line(0, 0, 0, 0, 0x00FF00, false, 1);
    c.commit_drawing();
    c.remove_layer(0);
    assert_eq!(c.layer_count(), 1);
    c.remove_layer(5);
    assert_eq!(c.layer_count(), 1);
    assert_eq!(c.get_active_layer(), 0);
    let data = c.layer_data(0, 0).expect("layer");
    assert_eq!(pixel(data, 2, 0, 0), (0, 255, 0, 255));
}

#[test]
fn remove_layer_ignores_missing_layers() {
    let mut c = Canvas::new(2, 2);
    c.add_layer();
    c.remove_layer(2);
    assert_eq!(c.layer_count(), 2);
    c.remove_layer(usize::MAX);
    assert_eq!(c.layer_count(), 2);
}

#[test]
fn remove_layer_shifts_later_layers_down() {
    let mut c = Canvas::new(1, 1);
    c.add_layer();
    c.add_layer();
    // paint layer 1 red and layer 2 blue
    c.set_active_layer(1);
    c.draw_line(0, 0, 0, 0, 0xFF0000, false, 1);
    c.commit_drawing();
    c.set_active_layer(2);
    c.draw_line(0, 0, 0, 0, 0x0000FF, false, 1);
    c.commit_drawing();

    c.remove_layer(1);
    assert_eq!(c.layer_count(), 2);
    assert_eq!(c.layer_data(0, 0).expect("layer 0"), &vec![0, 0, 0, 0]);
    assert_eq!(c.layer_data(0, 1).expect("layer 1"), &vec![0, 0, 255, 255]);
    assert!(c.layer_data(0, 2).is_none());
}

#[test]
fn remove_layer_clamps_the_active_layer() {
    let mut c = Canvas::new(2, 2);
    c.add_layer();
    c.add_layer();
    c.set_active_layer(2);
    c.remove_layer(0);
    // two layers are left, the selector pointed past the end
    assert_eq!(c.layer_count(), 2);
    assert_eq!(c.get_active_layer(), 1);
    // a selector that still points at a layer stays
    c.add_layer();
    c.set_active_layer(1);
    c.remove_layer(2);
    assert_eq!(c.get_active_layer(), 1);
    c.remove_layer(0);
    assert_eq!(c.layer_count(), 1);
    assert_eq!(c.get_active_layer(), 0);
}

#[test]
fn toggle_layer_visibility_flips_and_ignores_missing_layers() {
    let mut c = Canvas::new(2, 2);
    c.add_layer();
    assert!(c.is_layer_visible(1));
    c.toggle_layer_visibility(1);
    assert!(!c.is_layer_visible(1));
    assert!(c.is_layer_visible(0));
    c.toggle_layer_visibility(1);
    assert!(c.is_layer_visible(1));
    c.toggle_layer_visibility(2);
    assert!(c.is_layer_visible(0));
    assert!(c.is_layer_visible(1));
    assert_eq!(c.layer_count(), 2);
}

#[test]
fn is_layer_visible_is_false_for_missing_layers() {
    let c = Canvas::new(2, 2);
    assert!(!c.is_layer_visible(1));
    assert!(!c.is_layer_visible(usize::MAX));
}

#[test]
fn add_frame_becomes_current() {
    let mut c = Canvas::new(2, 2);
    c.add_layer();
    c.set_active_layer(1);
    assert_eq!(c.add_frame(), 1);
    assert_eq!(c.frame_count(), 2);
    assert_eq!(c.get_current_frame(), 1);
    // the new frame has one transparent, visible, active layer
    assert_eq!(c.layer_count(), 1);
    assert_eq!(c.get_active_layer(), 0);
    assert!(c.is_layer_visible(0));
    assert_eq!(c.layer_data(1, 0).expect("layer"), &vec![0u8; 16]);
    assert_eq!(c.add_frame(), 2);
    assert_eq!(c.get_current_frame(), 2);
}

#[test]
fn set_current_frame_ignores_missing_frames() {
    let mut c = Canvas::new(2, 2);
    c.add_layer();
    c.set_active_layer(1);
    c.add_frame();
    c.set_current_frame(0);
    assert_eq!(c.get_current_frame(), 0);
    // each frame keeps its own layers and active layer
    assert_eq!(c.layer_count(), 2);
    assert_eq!(c.get_active_layer(), 1);
    c.set_current_frame(2);
    assert_eq!(c.get_current_frame(), 0);
    c.set_current_frame(usize::MAX);
    assert_eq!(c.get_current_frame(), 0);
    c.set_current_frame(1);
    assert_eq!(c.get_current_frame(), 1);
    assert_eq!(c.layer_count(), 1);
}

#[test]
fn layer_operations_act_on_the_current_frame_only() {
    let mut c = Canvas::new(2, 2);
    c.add_frame();
    c.add_layer();
    c.toggle_layer_visibility(0);
    c.set_current_frame(0);
    assert_eq!(c.layer_count(), 1);
    assert!(c.is_layer_visible(0));
    c.set_current_frame(1);
    assert_eq!(c.layer_count(), 2);
    assert!(!c.is_layer_visible(0));
}

#[test]
fn layer_data_is_none_for_missing_layers() {
    let mut c = Canvas::new(2, 2);
    c.add_frame();
    assert!(c.layer_data(0, 0).is_some());
    assert!(c.layer_data(1, 0).is_some());
    assert!(c.layer_data(0, 1).is_none());
    assert!(c.layer_data(2, 0).is_none());
    assert!(c.layer_data(usize::MAX, usize::MAX).is_none());
}
