use etch::image::{Color, Image};
use etch::indexed::{indices, palette, IndexError, MAX_COLORS, MAX_SIDE};
use etch::vec2::Vec2;

#[test]
fn a_palette_lists_each_value_once_in_rising_order() {
    assert_eq!(palette(&[5, 3, 5, 9, 3, 3, 0], 256), Some(vec![0, 3, 5, 9]));
    assert_eq!(palette(&[7], 256), Some(vec![7]));
    assert_eq!(palette(&[], 256), Some(vec![]));
    assert_eq!(palette(&[], 0), Some(vec![]));
    assert_eq!(palette(&[u32::MAX, 0, u32::MAX], 2), Some(vec![0, u32::MAX]));
}

#[test]
fn a_palette_beyond_the_limit_is_not_made() {
    assert_eq!(palette(&[1, 2, 3], 2), None);
    assert_eq!(palette(&[1, 2, 1, 2, 3], 2), None);
    assert_eq!(palette(&[1], 0), None);
    assert_eq!(palette(&[3, 2, 1], 3), Some(vec![1, 2, 3]));
}

#[test]
fn indices_are_places_in_the_palette() {
    let pixels = [5, 3, 5, 9, 3, 3, 0];
    let found = palette(&pixels, 256).unwrap();
    let places = indices(&pixels, &found);
    assert_eq!(places, vec![2, 1, 2, 3, 1, 1, 0]);
    for (place, pixel) in places.iter().zip(pixels.iter()) {
        assert_eq!(found[usize::from(*place)], *pixel);
    }
    assert_eq!(indices(&[], &vec![]), Vec::<u8>::new());
}

#[test]
fn an_image_by_palette() {
    let mut image = Image::new(3, 2, Some(Color::new(0x86, 0x88, 0x86)));
    image.rect(Vec2::new(1, 0), Vec2::new(1, 2), Color::new(0x30, 0x32, 0x30));
    image.data_mut()[5] = 0xa0a0a0;
    let made = image.gif().unwrap();
    assert_eq!((made.width, made.height), (3, 2));
    assert_eq!(made.palette, vec![0x303230, 0x868886, 0xa0a0a0]);
    assert_eq!(made.indices, vec![1, 0, 1, 1, 0, 2]);
}

#[test]
fn an_image_of_256_colours_can_be_indexed() {
    let mut image = Image::new(16, 16, None);
    for (k, pixel) in image.data_mut().iter_mut().enumerate() {
        *pixel = 1_000 - k as u32;
    }
    let made = image.gif().unwrap();
    assert_eq!(made.palette.len(), MAX_COLORS);
    assert_eq!(made.palette[0], 745);
    assert_eq!(made.palette[255], 1_000);
    assert_eq!(made.indices[0], 255);
    assert_eq!(made.indices[255], 0);
}

#[test]
fn an_image_of_257_colours_cannot_be_indexed() {
    let mut image = Image::new(257, 1, None);
    for (k, pixel) in image.data_mut().iter_mut().enumerate() {
        *pixel = k as u32 * 3;
    }
    assert_eq!(image.gif().err(), Some(IndexError::TooManyColors));
}

#[test]
fn an_image_with_a_side_too_long_cannot_be_indexed() {
    assert_eq!(MAX_SIDE, 65_535);
    assert_eq!(Image::new(65_536, 1, None).gif().err(), Some(IndexError::TooLarge));
    assert_eq!(Image::new(1, 65_536, None).gif().err(), Some(IndexError::TooLarge));
    assert_eq!(Image::new(0, 65_536, None).gif().err(), Some(IndexError::TooLarge));
    let wide = Image::new(65_535, 1, None).gif().unwrap();
    assert_eq!((wide.width, wide.height), (65_535, 1));
    assert_eq!(wide.palette, vec![0]);
    assert_eq!(wide.indices.len(), 65_535);
}

#[test]
fn an_empty_image_has_an_empty_palette() {
    let made = Image::new(0, 0, None).gif().unwrap();
    assert_eq!((made.width, made.height), (0, 0));
    assert!(made.palette.is_empty());
    assert!(made.indices.is_empty());
}
