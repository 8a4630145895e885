use rusty_raytracer::frame::compose_image;

#[test]
fn rows_are_flipped_and_packed() {
    // 2 wide, 3 high; colors listed row by row from the bottom.
    let colors: Vec<[u8; 3]> = (0..6u8).map(|i| [i, 10 + i, 20 + i]).collect();
    let bytes = compose_image(2, 3, &colors);
    assert_eq!(bytes.len(), 18);
    let expected: Vec<u8> = vec![
        4, 14, 24, 5, 15, 25, // top image row: scene row 2
        2, 12, 22, 3, 13, 23, // scene row 1
        0, 10, 20, 1, 11, 21, // bottom image row: scene row 0
    ];
    assert_eq!(bytes, expected);
}

#[test]
fn bytes_build_an_image_with_the_same_pixels() {
    let colors: Vec<[u8; 3]> = vec![[255, 0, 0], [0, 255, 0], [0, 0, 255], [9, 8, 7]];
    let bytes = compose_image(2, 2, &colors);
    let img = image::RgbImage::from_raw(2, 2, bytes).unwrap();
    assert_eq!(img.get_pixel(0, 1).0, [255, 0, 0]);
    assert_eq!(img.get_pixel(1, 1).0, [0, 255, 0]);
    assert_eq!(img.get_pixel(0, 0).0, [0, 0, 255]);
    assert_eq!(img.get_pixel(1, 0).0, [9, 8, 7]);
}

#[test]
fn empty_grid_gives_no_bytes() {
    assert!(compose_image(0, 0, &Vec::new()).is_empty());
    assert!(compose_image(4, 0, &Vec::new()).is_empty());
}

#[test]
fn single_row_keeps_column_order() {
    let colors: Vec<[u8; 3]> = vec![[1, 2, 3], [4, 5, 6], [7, 8, 9]];
    assert_eq!(compose_image(3, 1, &colors), vec![1, 2, 3, 4, 5, 6, 7, 8, 9]);
}
