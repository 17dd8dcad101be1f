use image_concat::layout::canvas_size;

#[test]
fn canvas_of_two_images_of_equal_height() {
    assert_eq!(canvas_size(&vec![(10, 5), (20, 5)]), Some((30, 5)));
}

#[test]
fn canvas_is_as_high_as_the_highest_image() {
    assert_eq!(canvas_size(&vec![(3, 7), (4, 2), (5, 9)]), Some((12, 9)));
    assert_eq!(canvas_size(&vec![(3, 9), (4, 2), (5, 7)]), Some((12, 9)));
    assert_eq!(canvas_size(&vec![(3, 2), (4, 9), (5, 7)]), Some((12, 9)));
}

#[test]
fn canvas_of_one_image_is_that_image() {
    assert_eq!(canvas_size(&vec![(640, 480)]), Some((640, 480)));
}

#[test]
fn canvas_of_images_without_width_or_height() {
    assert_eq!(canvas_size(&vec![(0, 4), (7, 0)]), Some((7, 4)));
    assert_eq!(canvas_size(&vec![(0, 0)]), Some((0, 0)));
}

#[test]
fn canvas_reaches_the_largest_u32() {
    let max = u32::MAX as usize;
    assert_eq!(canvas_size(&vec![(max - 1, max), (1, 3)]), Some((u32::MAX, u32::MAX)));
    assert_eq!(canvas_size(&vec![(max, max)]), Some((u32::MAX, u32::MAX)));
}

#[test]
fn widths_that_sum_beyond_u32_have_no_canvas() {
    let max = u32::MAX as usize;
    assert_eq!(canvas_size(&vec![(max, 1), (1, 1)]), None);
    assert_eq!(canvas_size(&vec![(max, 1), (5, 1)]), None);
    assert_eq!(canvas_size(&vec![(max, 1), (max, 1), (8, 1)]), None);
    assert_eq!(canvas_size(&vec![(1, 1), (max, 1), (0, 1)]), None);
}

#[test]
fn the_largest_widths_have_no_canvas() {
    assert_eq!(canvas_size(&vec![(usize::MAX, 2), (usize::MAX, 2)]), None);
    assert_eq!(canvas_size(&vec![(usize::MAX, 2), (1, 2)]), None);
    assert_eq!(canvas_size(&vec![(1, 2), (usize::MAX, 2)]), None);
}

#[test]
fn a_height_beyond_u32_has_no_canvas() {
    assert_eq!(canvas_size(&vec![(1, 9), (1, usize::MAX)]), None);
    assert_eq!(canvas_size(&vec![(1, usize::MAX), (1, 9)]), None);
    let over = (u32::MAX as u64 + 6) as usize;
    if over as u64 == u32::MAX as u64 + 6 {
        assert_eq!(canvas_size(&vec![(1, 9), (1, over)]), None);
        assert_eq!(canvas_size(&vec![(over, 9)]), None);
    }
}
