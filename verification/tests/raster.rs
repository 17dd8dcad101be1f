use image_concat::raster::Raster;

#[test]
fn new_canvas_is_black() {
    let canvas = Raster::new(4, 3).unwrap();
    assert_eq!(canvas.dimensions(), (4, 3));
    assert_eq!(canvas.into_raw(), vec![0u8; 36]);
}

#[test]
fn new_canvas_without_pixels() {
    let canvas = Raster::new(0, 0).unwrap();
    assert_eq!(canvas.dimensions(), (0, 0));
    assert!(canvas.into_raw().is_empty());
    let canvas = Raster::new(7, 0).unwrap();
    assert_eq!(canvas.dimensions(), (7, 0));
    assert!(canvas.into_raw().is_empty());
}

#[test]
fn new_canvas_beyond_memory_is_refused() {
    assert!(Raster::new(u32::MAX, u32::MAX).is_none());
    assert!(Raster::new(u32::MAX, 1 << 31).is_none());
}

#[test]
fn from_raw_keeps_the_samples() {
    let data: Vec<u8> = (0..24).collect();
    let img = Raster::from_raw(4, 2, data.clone()).unwrap();
    assert_eq!(img.dimensions(), (4, 2));
    assert_eq!(img.into_raw(), data);
}

#[test]
fn from_raw_agrees_with_the_image_buffer() {
    let source = image::RgbImage::from_fn(5, 3, |x, y| image::Rgb([x as u8, y as u8, 9]));
    let img = Raster::from_raw(5, 3, source.clone().into_raw()).unwrap();
    let back = image::RgbImage::from_raw(5, 3, img.into_raw()).unwrap();
    assert_eq!(back, source);
    assert_eq!(back.get_pixel(4, 2), &image::Rgb([4, 2, 9]));
}

#[test]
fn from_raw_refuses_too_few_samples() {
    assert!(Raster::from_raw(4, 2, vec![0u8; 23]).is_none());
    assert!(Raster::from_raw(1, 1, Vec::new()).is_none());
    assert!(Raster::from_raw(u32::MAX, u32::MAX, vec![0u8; 3]).is_none());
}

#[test]
fn from_raw_takes_more_samples_than_needed() {
    let img = Raster::from_raw(1, 1, vec![1, 2, 3, 4]).unwrap();
    assert_eq!(img.dimensions(), (1, 1));
    assert_eq!(img.into_raw(), vec![1, 2, 3, 4]);
}

#[test]
fn from_raw_of_an_empty_image() {
    let img = Raster::from_raw(0, 5, Vec::new()).unwrap();
    assert_eq!(img.dimensions(), (0, 5));
}
