use picmrg::codec::LoadError;
use picmrg::error::MergeError;
use picmrg::merger::determine_merge_orientation;
use picmrg::merger::load_image_info;
use picmrg::merger::merge_horizontally;
use picmrg::merger::merge_images;
use picmrg::merger::merge_vertically;
use picmrg::merger::ImageInfo;
use picmrg::merger::MergeOrientation;
use picmrg::raster::Raster;
use picmrg::resize::resize_to_height;
use picmrg::resize::resize_to_width;
use picmrg::test_utils::generate_test_image;

/// The bytes of an image file of one colour in the given format.
fn encoded_image(width: u32, height: u32, color: [u8; 3], format: image::ImageFormat) -> Vec<u8> {
    let pixels = image::RgbImage::from_fn(width, height, |_x, _y| image::Rgb(color));
    let mut bytes = Vec::new();
    image::DynamicImage::ImageRgb8(pixels)
        .write_to(&mut std::io::Cursor::new(&mut bytes), format)
        .expect("Failed to encode test image");
    bytes
}

fn info(width: u32, height: u32, color: [u8; 3]) -> ImageInfo {
    ImageInfo::new(generate_test_image(width, height, color))
}

/// Whether every pixel of the block has the given colour.
fn block_is(image: &Raster, left: u32, top: u32, width: u32, height: u32, color: [u8; 4]) -> bool {
    (top..top + height).all(|y| (left..left + width).all(|x| image.get_pixel(x, y) == color))
}

#[test]
fn test_determine_merge_orientation() {
    // Create test image infos
    let vertical_images = vec![
        ImageInfo {
            image: generate_test_image(100, 200, [255, 0, 0]),
            width: 100,
            height: 200,
            is_vertical: true,
        },
        ImageInfo {
            image: generate_test_image(150, 300, [0, 255, 0]),
            width: 150,
            height: 300,
            is_vertical: true,
        },
    ];

    let horizontal_images = vec![
        ImageInfo {
            image: generate_test_image(300, 150, [255, 0, 0]),
            width: 300,
            height: 150,
            is_vertical: false,
        },
        ImageInfo {
            image: generate_test_image(400, 200, [0, 255, 0]),
            width: 400,
            height: 200,
            is_vertical: false,
        },
    ];

    let mixed_images = vec![
        ImageInfo {
            image: generate_test_image(100, 200, [255, 0, 0]),
            width: 100,
            height: 200,
            is_vertical: true,
        },
        ImageInfo {
            image: generate_test_image(300, 150, [0, 255, 0]),
            width: 300,
            height: 150,
            is_vertical: false,
        },
        ImageInfo {
            image: generate_test_image(200, 100, [0, 0, 255]),
            width: 200,
            height: 100,
            is_vertical: false,
        },
    ];

    // Test majority vertical -> horizontal merge
    assert!(matches!(determine_merge_orientation(&vertical_images), MergeOrientation::Horizontal));

    // Test majority horizontal -> vertical merge
    assert!(matches!(determine_merge_orientation(&horizontal_images), MergeOrientation::Vertical));

    // Test mixed with majority horizontal -> vertical merge
    assert!(matches!(determine_merge_orientation(&mixed_images), MergeOrientation::Vertical));
}

#[test]
fn orientation_of_a_tie_is_vertical() {
    let tie = vec![info(10, 20, [1, 2, 3]), info(20, 10, [1, 2, 3])];
    assert_eq!(determine_merge_orientation(&tie), MergeOrientation::Vertical);
    let squares = vec![info(10, 10, [1, 2, 3]), info(20, 20, [1, 2, 3]), info(5, 6, [0, 0, 0])];
    assert_eq!(determine_merge_orientation(&squares), MergeOrientation::Vertical);
    let majority = vec![info(10, 11, [1, 2, 3]), info(20, 20, [1, 2, 3]), info(5, 6, [0, 0, 0])];
    assert_eq!(determine_merge_orientation(&majority), MergeOrientation::Horizontal);
    assert_eq!(determine_merge_orientation(&Vec::new()), MergeOrientation::Vertical);
    let one = vec![info(1, 2, [0, 0, 0])];
    assert_eq!(determine_merge_orientation(&one), MergeOrientation::Horizontal);
}

#[test]
fn image_info_marks_taller_than_wide_as_vertical() {
    let tall = info(100, 101, [0, 0, 0]);
    assert_eq!((tall.width, tall.height, tall.is_vertical), (100, 101, true));
    let square = info(100, 100, [0, 0, 0]);
    assert_eq!((square.width, square.height, square.is_vertical), (100, 100, false));
    let wide = info(101, 100, [0, 0, 0]);
    assert_eq!((wide.width, wide.height, wide.is_vertical), (101, 100, false));
}

#[test]
fn test_load_image_info() {
    // Test loading a vertical image
    let vertical_bytes = encoded_image(200, 400, [255, 0, 0], image::ImageFormat::Png);
    let vertical_info = load_image_info("vertical-images/red.png", &vertical_bytes)
        .expect("Failed to load vertical image");
    assert_eq!(vertical_info.width, 200);
    assert_eq!(vertical_info.height, 400);
    assert!(vertical_info.is_vertical);

    // Test loading a horizontal image
    let horizontal_bytes = encoded_image(400, 200, [255, 255, 0], image::ImageFormat::Png);
    let horizontal_info = load_image_info("horizontal-images/yellow.png", &horizontal_bytes)
        .expect("Failed to load horizontal image");
    assert_eq!(horizontal_info.width, 400);
    assert_eq!(horizontal_info.height, 200);
    assert!(!horizontal_info.is_vertical);

    // Test loading a square image
    let square_bytes = encoded_image(200, 200, [128, 128, 128], image::ImageFormat::WebP);
    let square_info = load_image_info("mixed-images/gray.webp", &square_bytes)
        .expect("Failed to load square image");
    assert_eq!(square_info.width, 200);
    assert_eq!(square_info.height, 200);
    assert!(!square_info.is_vertical); // height == width, so not vertical
}

#[test]
fn load_image_info_gives_the_pixels_of_the_file() {
    let bytes = encoded_image(3, 2, [10, 20, 30], image::ImageFormat::Png);
    let loaded = load_image_info("tiny.png", &bytes).expect("Failed to load");
    assert_eq!(loaded.image.width(), 3);
    assert_eq!(loaded.image.height(), 2);
    assert_eq!(loaded.image.as_raw().len(), 24);
    assert!(block_is(&loaded.image, 0, 0, 3, 2, [10, 20, 30, 255]));

    let mut translucent = image::RgbaImage::new(2, 1);
    translucent.put_pixel(0, 0, image::Rgba([1, 2, 3, 4]));
    translucent.put_pixel(1, 0, image::Rgba([5, 6, 7, 0]));
    let mut bytes = Vec::new();
    image::DynamicImage::ImageRgba8(translucent)
        .write_to(&mut std::io::Cursor::new(&mut bytes), image::ImageFormat::Png)
        .expect("Failed to encode");
    let loaded = load_image_info("glass.PNG", &bytes).expect("Failed to load");
    assert_eq!(loaded.image.get_pixel(0, 0), [1, 2, 3, 4]);
    assert_eq!(loaded.image.get_pixel(1, 0), [5, 6, 7, 0]);
}

#[test]
fn load_image_info_reads_every_format_of_the_scanner() {
    let formats = [
        ("a.png", image::ImageFormat::Png),
        ("a.jpg", image::ImageFormat::Jpeg),
        ("a.jpeg", image::ImageFormat::Jpeg),
        ("a.gif", image::ImageFormat::Gif),
        ("a.bmp", image::ImageFormat::Bmp),
        ("a.tiff", image::ImageFormat::Tiff),
        ("a.tif", image::ImageFormat::Tiff),
        ("a.webp", image::ImageFormat::WebP),
    ];
    for (path, format) in formats {
        let bytes = encoded_image(7, 5, [200, 100, 50], format);
        let loaded = load_image_info(path, &bytes).expect("Failed to load");
        assert_eq!((loaded.width, loaded.height), (7, 5), "{}", path);
        assert!(!loaded.is_vertical);
        assert_eq!(loaded.image.as_raw().len(), 7 * 5 * 4);
        assert_eq!(loaded.image.get_pixel(3, 2)[3], 255, "{}", path);
    }
}

#[test]
fn load_image_info_goes_by_the_extension() {
    let png = encoded_image(4, 4, [1, 2, 3], image::ImageFormat::Png);
    assert!(matches!(load_image_info("picture.txt", &png), Err(LoadError::UnsupportedFormat)));
    assert!(matches!(load_image_info("picture", &png), Err(LoadError::UnsupportedFormat)));
    assert!(matches!(load_image_info(".png", &png), Err(LoadError::UnsupportedFormat)));
    // A file that is not what its name says is not read as what it is.
    assert!(matches!(load_image_info("picture.jpg", &png), Err(LoadError::DecodeFailed { .. })));
    assert!(matches!(load_image_info("picture.png", &Vec::new()), Err(LoadError::DecodeFailed { .. })));
    match load_image_info("picture.png", &vec![1, 2, 3]) {
        Err(e) => assert!(!e.message().is_empty()),
        Ok(_) => panic!("three bytes are no image"),
    }
    match load_image_info("picture.txt", &png) {
        Err(e) => assert_eq!(e.message(), "The file extension names no image format"),
        Ok(_) => panic!("the name is no image's"),
    }
    let noise = vec![7u8; 100];
    assert!(matches!(load_image_info("picture.png", &noise), Err(LoadError::DecodeFailed { .. })));
}

#[test]
fn test_resize_to_height() {
    let image = generate_test_image(100, 200, [255, 0, 0]);

    // Test resizing to same height (should return clone)
    let same_height = resize_to_height(&image, 200);
    assert_eq!(same_height.width(), 100);
    assert_eq!(same_height.height(), 200);

    // Test resizing to different height (should maintain aspect ratio)
    let resized = resize_to_height(&image, 400);
    assert_eq!(resized.height(), 400);
    // Aspect ratio: 100/200 = 0.5, so new width should be 400 * 0.5 = 200
    assert_eq!(resized.width(), 200);
}

#[test]
fn test_resize_to_width() {
    let image = generate_test_image(200, 100, [0, 255, 0]);

    // Test resizing to same width (should return clone)
    let same_width = resize_to_width(&image, 200);
    assert_eq!(same_width.width(), 200);
    assert_eq!(same_width.height(), 100);

    // Test resizing to different width (should maintain aspect ratio)
    let resized = resize_to_width(&image, 400);
    assert_eq!(resized.width(), 400);
    // Aspect ratio: 100/200 = 0.5, so new height should be 400 * 0.5 = 200
    assert_eq!(resized.height(), 200);
}

#[test]
fn resize_to_the_same_side_changes_no_pixel() {
    let mut image = generate_test_image(5, 3, [9, 8, 7]);
    image.put_pixel(4, 2, [1, 2, 3, 4]);
    image.put_pixel(0, 0, [250, 251, 252, 253]);
    let same_width = resize_to_width(&image, 5);
    assert_eq!(same_width.as_raw(), image.as_raw());
    assert_eq!((same_width.width(), same_width.height()), (5, 3));
    let same_height = resize_to_height(&image, 3);
    assert_eq!(same_height.as_raw(), image.as_raw());
    assert_eq!((same_height.width(), same_height.height()), (5, 3));
}

#[test]
fn resize_gives_the_size_that_was_asked_for() {
    let image = generate_test_image(100, 300, [10, 20, 30]);
    // 200 * (100 / 300) is 66.67, cut off to 66; the height is the target.
    let resized = resize_to_height(&image, 200);
    assert_eq!((resized.width(), resized.height()), (66, 200));
    assert_eq!(resized.as_raw().len(), 66 * 200 * 4);
    // 50 * (300 / 100) is 150.
    let resized = resize_to_width(&image, 50);
    assert_eq!((resized.width(), resized.height()), (50, 150));
    // A side that is cut off to nothing leaves no pixel.
    let thin = generate_test_image(1, 1000, [0, 0, 0]);
    let resized = resize_to_height(&thin, 10);
    assert_eq!((resized.width(), resized.height()), (0, 10));
    assert_eq!(resized.as_raw().len(), 0);
}

#[test]
fn resize_keeps_the_colour_of_a_plain_image() {
    let image = generate_test_image(40, 20, [255, 128, 0]);
    let larger = resize_to_width(&image, 100);
    assert_eq!((larger.width(), larger.height()), (100, 50));
    assert!(block_is(&larger, 0, 0, 100, 50, [255, 128, 0, 255]));
    let smaller = resize_to_height(&image, 5);
    assert_eq!((smaller.width(), smaller.height()), (10, 5));
    assert!(block_is(&smaller, 0, 0, 10, 5, [255, 128, 0, 255]));
}

#[test]
fn resize_resamples_what_it_enlarges() {
    let mut image = generate_test_image(2, 1, [0, 0, 0]);
    image.put_pixel(1, 0, [255, 255, 255, 255]);
    let resized = resize_to_width(&image, 8);
    assert_eq!((resized.width(), resized.height()), (8, 4));
    // The left edge is dark, the right edge is light.
    assert!(resized.get_pixel(0, 0)[0] < 64);
    assert!(resized.get_pixel(7, 3)[0] > 192);
    assert_eq!(resized.get_pixel(3, 1)[3], 255);
}

#[test]
fn test_merge_horizontally() {
    let image_infos = vec![
        ImageInfo {
            image: generate_test_image(100, 200, [255, 0, 0]), // Red
            width: 100,
            height: 200,
            is_vertical: true,
        },
        ImageInfo {
            image: generate_test_image(150, 300, [0, 255, 0]), // Green
            width: 150,
            height: 300,
            is_vertical: true,
        },
    ];

    let merged = merge_horizontally(&image_infos).expect("Failed to merge horizontally");

    // Should use the tallest height (300) and sum up widths proportionally
    assert_eq!(merged.height(), 300);
    // First image: 100 * (300/200) = 150 width
    // Second image: 150 * (300/300) = 150 width
    // Total: 150 + 150 = 300
    assert_eq!(merged.width(), 300);
}

#[test]
fn test_merge_vertically() {
    let image_infos = vec![
        ImageInfo {
            image: generate_test_image(200, 100, [255, 0, 0]), // Red
            width: 200,
            height: 100,
            is_vertical: false,
        },
        ImageInfo {
            image: generate_test_image(300, 150, [0, 255, 0]), // Green
            width: 300,
            height: 150,
            is_vertical: false,
        },
    ];

    let merged = merge_vertically(&image_infos).expect("Failed to merge vertically");

    // Should use the widest width (300) and sum up heights proportionally
    assert_eq!(merged.width(), 300);
    // First image: 100 * (300/200) = 150 height
    // Second image: 150 * (300/300) = 150 height
    // Total: 150 + 150 = 300
    assert_eq!(merged.height(), 300);
}

#[test]
fn merge_horizontally_keeps_the_order_of_the_images() {
    let image_infos = vec![
        info(100, 200, [255, 0, 0]),
        info(150, 300, [0, 255, 0]),
        info(30, 300, [0, 0, 255]),
    ];
    let merged = merge_horizontally(&image_infos).expect("Failed to merge horizontally");
    assert_eq!((merged.width(), merged.height()), (330, 300));
    assert!(block_is(&merged, 0, 0, 150, 300, [255, 0, 0, 255]));
    assert!(block_is(&merged, 150, 0, 150, 300, [0, 255, 0, 255]));
    assert!(block_is(&merged, 300, 0, 30, 300, [0, 0, 255, 255]));
}

#[test]
fn merge_vertically_keeps_the_order_of_the_images() {
    let image_infos = vec![
        info(200, 100, [255, 0, 0]),
        info(300, 150, [0, 255, 0]),
        info(300, 20, [0, 0, 255]),
    ];
    let merged = merge_vertically(&image_infos).expect("Failed to merge vertically");
    assert_eq!((merged.width(), merged.height()), (300, 320));
    assert!(block_is(&merged, 0, 0, 300, 150, [255, 0, 0, 255]));
    assert!(block_is(&merged, 0, 150, 300, 150, [0, 255, 0, 255]));
    assert!(block_is(&merged, 0, 300, 300, 20, [0, 0, 255, 255]));
}

#[test]
fn merge_of_one_image_is_that_image() {
    let mut image = generate_test_image(4, 6, [1, 2, 3]);
    image.put_pixel(2, 5, [9, 9, 9, 9]);
    let raw = image.as_raw().clone();
    let image_infos = vec![ImageInfo::new(image)];
    let merged = merge_horizontally(&image_infos).expect("Failed to merge horizontally");
    assert_eq!((merged.width(), merged.height()), (4, 6));
    assert_eq!(merged.as_raw(), &raw);
    let merged = merge_vertically(&image_infos).expect("Failed to merge vertically");
    assert_eq!((merged.width(), merged.height()), (4, 6));
    assert_eq!(merged.as_raw(), &raw);
}

#[test]
fn merge_images_picks_the_layout() {
    // Two vertical images of heights 200 and 300: side by side.
    let vertical = vec![info(100, 200, [255, 0, 0]), info(150, 300, [0, 255, 0])];
    let merged = merge_images(&vertical).expect("Failed to merge");
    assert_eq!((merged.width(), merged.height()), (300, 300));
    assert!(block_is(&merged, 0, 0, 150, 300, [255, 0, 0, 255]));
    assert!(block_is(&merged, 150, 0, 150, 300, [0, 255, 0, 255]));
    // Two horizontal images of widths 200 and 300: stacked.
    let horizontal = vec![info(200, 100, [255, 0, 0]), info(300, 150, [0, 255, 0])];
    let merged = merge_images(&horizontal).expect("Failed to merge");
    assert_eq!((merged.width(), merged.height()), (300, 300));
    assert!(block_is(&merged, 0, 0, 300, 150, [255, 0, 0, 255]));
    assert!(block_is(&merged, 0, 150, 300, 150, [0, 255, 0, 255]));
    // One of each: stacked.
    let tie = vec![info(10, 20, [255, 0, 0]), info(20, 10, [0, 255, 0])];
    let merged = merge_images(&tie).expect("Failed to merge");
    assert_eq!((merged.width(), merged.height()), (20, 50));
}

#[test]
fn merge_images_of_nothing_fails() {
    assert!(matches!(merge_images(&Vec::new()), Err(MergeError::NoValidImages)));
}

#[test]
fn merge_fails_where_the_canvas_cannot_be_had() {
    // Rasters without a pixel, but with one side as long as a side can be.
    let flat = Raster::from_raw(u32::MAX, 0, Vec::new()).unwrap();
    let thin = Raster::from_raw(0, u32::MAX, Vec::new()).unwrap();
    let image_infos = vec![ImageInfo::new(flat), ImageInfo::new(thin)];
    assert!(matches!(merge_vertically(&image_infos), Err(MergeError::CanvasTooLarge)));
    assert!(matches!(merge_horizontally(&image_infos), Err(MergeError::CanvasTooLarge)));
    assert!(matches!(merge_images(&image_infos), Err(MergeError::CanvasTooLarge)));
}
