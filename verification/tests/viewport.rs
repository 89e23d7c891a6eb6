use dxtr_imgs::engine::DevelopedImage;
use dxtr_imgs::viewport::{prepare_render_pixels, swap_red_blue, InvalidRgbaBuffer};

#[test]
fn swap_exchanges_red_and_blue_of_whole_pixels() {
    let mut data = vec![1, 2, 3, 4, 5, 6, 7, 8, 9, 10];
    swap_red_blue(&mut data);
    assert_eq!(data, vec![3, 2, 1, 4, 7, 6, 5, 8, 9, 10]);
}

#[test]
fn swap_twice_restores_the_buffer() {
    let original: Vec<u8> = (0..23).collect();
    let mut data = original.clone();
    swap_red_blue(&mut data);
    swap_red_blue(&mut data);
    assert_eq!(data, original);
}

#[test]
fn swap_of_empty_buffer_is_empty() {
    let mut data: Vec<u8> = Vec::new();
    swap_red_blue(&mut data);
    assert!(data.is_empty());
}

#[test]
fn valid_image_is_converted_to_bgra() {
    let image = DevelopedImage { width: 2, height: 1, data: vec![10, 20, 30, 255, 40, 50, 60, 128] };
    let prepared = prepare_render_pixels(image).expect("valid buffer");
    assert_eq!((prepared.width, prepared.height), (2, 1));
    assert_eq!(prepared.data, vec![30, 20, 10, 255, 60, 50, 40, 128]);
}

#[test]
fn short_buffer_is_refused() {
    let image = DevelopedImage { width: 2, height: 2, data: vec![0; 12] };
    assert_eq!(
        prepare_render_pixels(image).unwrap_err(),
        InvalidRgbaBuffer { expected: Some(16), actual: 12 }
    );
}

#[test]
fn long_buffer_is_refused() {
    let image = DevelopedImage { width: 1, height: 1, data: vec![0; 5] };
    assert_eq!(
        prepare_render_pixels(image).unwrap_err(),
        InvalidRgbaBuffer { expected: Some(4), actual: 5 }
    );
}
