use untitled_th::render::{
    bytes_per_row, screenshot_len, wave_indices, MainRenderViews, TextureInfo, WAVE_SLOTS,
};

#[test]
fn the_size_of_a_texture() {
    assert_eq!(TextureInfo::new(1600, 900), TextureInfo { width: 1600, height: 900 });
    assert_eq!(TextureInfo::default(), TextureInfo { width: 0, height: 0 });
}

#[test]
fn the_first_buffer_is_the_screen() {
    let views = MainRenderViews::new("a", "b");
    assert_eq!(*views.get_screen(), "a");
    assert_eq!(*views.get_screen(), "a");
}

#[test]
fn a_swap_makes_the_other_buffer_the_screen() {
    let mut views = MainRenderViews::new("a", "b");
    assert_eq!(views.swap_screen(), (&"a", &"b"));
    assert_eq!(*views.get_screen(), "b");
    assert_eq!(views.swap_screen(), (&"b", &"a"));
    assert_eq!(*views.get_screen(), "a");
    assert_eq!(views.swap_screen(), (&"a", &"b"));
}

#[test]
fn the_indices_of_the_waves() {
    let indices = wave_indices();
    assert_eq!(WAVE_SLOTS, 8);
    assert_eq!(indices.len(), 48);
    assert_eq!(&indices[..6], &[0, 1, 2, 1, 2, 3]);
    assert_eq!(&indices[6..12], &[4, 5, 6, 5, 6, 7]);
    assert_eq!(&indices[42..], &[28, 29, 30, 29, 30, 31]);
    for quad in 0..8u16 {
        let i = quad * 4;
        let at = quad as usize * 6;
        assert_eq!(&indices[at..at + 6], &[i, i + 1, i + 2, i + 1, i + 2, i + 3]);
    }
}

#[test]
fn the_length_of_a_screenshot() {
    assert_eq!(screenshot_len(1600, 900), 5_760_000);
    assert_eq!(screenshot_len(0, 900), 0);
    assert_eq!(screenshot_len(1, 1), 4);
    assert_eq!(screenshot_len(65536, 65536), 1 << 34);
}

#[test]
fn the_bytes_of_a_row() {
    assert_eq!(bytes_per_row(1600), Some(6400));
    assert_eq!(bytes_per_row(1), Some(4));
    assert_eq!(bytes_per_row(0), None);
    assert_eq!(bytes_per_row(u32::MAX / 4), Some(u32::MAX - 3));
    assert_eq!(bytes_per_row(u32::MAX / 4 + 1), None);
    assert_eq!(bytes_per_row(u32::MAX), None);
}
