use manga_koukan::config::Config;
use manga_koukan::config::ArchiveFormat;
use manga_koukan::error::Error;
use manga_koukan::margin::guard_holds;
use manga_koukan::margin::process_margin;
use manga_koukan::margin::row_bounds;
use manga_koukan::mode::vec_most_occur;
use manga_koukan::page::Page;
use manga_koukan::page::Side;
use manga_koukan::raster::Pixel;
use manga_koukan::raster::Raster;
use manga_koukan::resize::resize;
use manga_koukan::resize::resize_checked;
use manga_koukan::resize::scale;
use manga_koukan::resize::wanted_size;
use manga_koukan::split::split_pages;

const WHITE: [u8; 4] = [255, 255, 255, 255];
const BLACK: [u8; 4] = [0, 0, 0, 255];

fn options(resolution: Option<[u32; 2]>, margin: Option<i32>, split: bool) -> Config {
    Config {
        image_format: None,
        archive_format: ArchiveFormat::CBZ,
        resolution,
        remove_margin: margin,
        split_pages: split,
    }
}

/// A white picture with a black rectangle over the columns `left ..= right`
/// of the rows `top .. bottom`.
fn boxed(width: u32, height: u32, left: u32, right: u32, top: u32, bottom: u32) -> Raster {
    let mut samples = Vec::new();
    for y in 0..height {
        for x in 0..width {
            let inside = left <= x && x <= right && top <= y && y < bottom;
            samples.extend_from_slice(if inside { &BLACK } else { &WHITE });
        }
    }
    Raster::from_samples(width, height, samples).unwrap()
}

/// A picture whose pixel at `(x, y)` is `(x, y, 0, 255)`.
fn gradient(width: u32, height: u32) -> Raster {
    let mut samples = Vec::new();
    for y in 0..height {
        for x in 0..width {
            samples.extend_from_slice(&[x as u8, y as u8, 0, 255]);
        }
    }
    Raster::from_samples(width, height, samples).unwrap()
}

#[test]
fn raster_needs_four_samples_to_the_pixel() {
    assert!(Raster::from_samples(2, 2, vec![0; 16]).is_some());
    assert!(Raster::from_samples(2, 2, vec![0; 15]).is_none());
    assert!(Raster::from_samples(2, 2, vec![0; 17]).is_none());
    assert!(Raster::from_samples(0, 5, vec![]).is_some());
    assert!(Raster::from_samples(u32::MAX, u32::MAX, vec![]).is_none());
}

#[test]
fn raster_reads_pixels_row_by_row() {
    let image = gradient(3, 2);
    assert_eq!(image.width(), 3);
    assert_eq!(image.height(), 2);
    assert_eq!(image.pixel(0, 0), Pixel { r: 0, g: 0, b: 0, a: 255 });
    assert_eq!(image.pixel(2, 0), Pixel { r: 2, g: 0, b: 0, a: 255 });
    assert_eq!(image.pixel(1, 1), Pixel { r: 1, g: 1, b: 0, a: 255 });
    assert_eq!(image.samples().len(), 24);
    assert_eq!(image.into_samples()[4..8], [1, 0, 0, 255]);
}

#[test]
fn columns_show_a_window_of_full_height() {
    let image = gradient(5, 3);
    let window = image.columns(1, 3);
    assert_eq!(window.width(), 3);
    assert_eq!(window.height(), 3);
    for y in 0..3 {
        for x in 0..3 {
            assert_eq!(window.pixel(x, y), image.pixel(x + 1, y));
        }
    }
    let none = image.columns(5, 0);
    assert_eq!(none.width(), 0);
    assert_eq!(none.height(), 3);
    assert!(none.samples().is_empty());
}

#[test]
fn most_frequent_value_wins() {
    assert_eq!(vec_most_occur(&[1u32, 2, 2, 3, 2, 1]), 2);
    assert_eq!(vec_most_occur(&[7u32]), 7);
    assert_eq!(vec_most_occur(&[5u8, 5, 5, 9]), 5);
}

#[test]
fn of_equally_frequent_values_the_first_wins() {
    assert_eq!(vec_most_occur(&[4u32, 9, 9, 4]), 4);
    assert_eq!(vec_most_occur(&[9u32, 4, 4, 9]), 9);
    assert_eq!(vec_most_occur(&[3u32, 1, 2]), 3);
    assert_eq!(vec_most_occur(&[1u32, 2, 2, 1, 3, 3]), 1);
}

#[test]
fn row_bounds_find_first_and_last_content() {
    let image = boxed(20, 4, 3, 15, 1, 3);
    let white = Pixel { r: 255, g: 255, b: 255, a: 255 };
    assert_eq!(row_bounds(&image, 0, white), (10, 10));
    assert_eq!(row_bounds(&image, 1, white), (3, 15));
    assert_eq!(row_bounds(&image, 2, white), (3, 15));
    assert_eq!(row_bounds(&image, 3, white), (10, 10));
}

#[test]
fn row_bounds_stop_at_the_middle() {
    // Content on one side only: the other bound stays in the middle.
    let left_only = boxed(20, 1, 2, 5, 0, 1);
    let white = Pixel { r: 255, g: 255, b: 255, a: 255 };
    assert_eq!(row_bounds(&left_only, 0, white), (2, 10));
    let right_only = boxed(20, 1, 12, 17, 0, 1);
    assert_eq!(row_bounds(&right_only, 0, white), (10, 17));
}

#[test]
fn guard_compares_tolerance_with_change_of_width() {
    // 12 of 20 columns stay: the width changes by -0.4.
    assert!(guard_holds(-400_001, 12, 20));
    assert!(!guard_holds(-400_000, 12, 20));
    assert!(!guard_holds(0, 12, 20));
    assert!(!guard_holds(1_000_000, 12, 20));
    assert!(guard_holds(i32::MIN, 0, u32::MAX));
    assert!(!guard_holds(i32::MAX, 0, u32::MAX));
}

#[test]
fn margin_is_trimmed_below_the_threshold() {
    let mut image = boxed(20, 6, 3, 15, 1, 5);
    process_margin(&mut image, -500_000);
    assert_eq!(image.width(), 12);
    assert_eq!(image.height(), 6);
    let source = boxed(20, 6, 3, 15, 1, 5);
    for y in 0..6 {
        for x in 0..12 {
            assert_eq!(image.pixel(x, y), source.pixel(x + 3, y));
        }
    }
}

#[test]
fn margin_stays_above_the_threshold() {
    let mut image = boxed(20, 6, 3, 15, 1, 5);
    process_margin(&mut image, -300_000);
    assert_eq!(image.width(), 20);
    assert_eq!(image.samples(), boxed(20, 6, 3, 15, 1, 5).samples());
    let mut same = boxed(20, 6, 3, 15, 1, 5);
    process_margin(&mut same, -400_000);
    assert_eq!(same.width(), 20);
}

#[test]
fn margin_is_never_trimmed_with_a_tolerance_from_zero_to_one() {
    for tolerance in [0, 1, 500_000, 1_000_000] {
        let mut image = boxed(20, 6, 3, 15, 0, 6);
        process_margin(&mut image, tolerance);
        assert_eq!(image.width(), 20);
        assert_eq!(image.height(), 6);
    }
}

#[test]
fn margin_goes_by_what_most_rows_show() {
    // Two rows of content against four blank rows: the blank rows decide,
    // and the window between middle and middle is empty.
    let mut image = boxed(20, 6, 3, 15, 2, 4);
    process_margin(&mut image, -2_000_000);
    assert_eq!(image.width(), 0);
    assert_eq!(image.height(), 6);
    // As many rows of content as blank ones, content first: content decides.
    let mut even = boxed(20, 4, 3, 15, 0, 2);
    process_margin(&mut even, -2_000_000);
    assert_eq!(even.width(), 12);
}

#[test]
fn margin_leaves_a_picture_without_pixels_alone() {
    let mut flat = Raster::from_samples(0, 4, vec![]).unwrap();
    process_margin(&mut flat, -2_000_000);
    assert_eq!(flat.width(), 0);
    assert_eq!(flat.height(), 4);
    let mut thin = Raster::from_samples(4, 0, vec![]).unwrap();
    process_margin(&mut thin, -2_000_000);
    assert_eq!(thin.width(), 4);
    assert_eq!(thin.height(), 0);
}

#[test]
fn spread_is_cut_into_left_and_right() {
    let page = Page::new("page4.png", gradient(10, 4));
    let pages = split_pages(page, &options(None, None, true));
    assert_eq!(pages.len(), 2);
    assert_eq!(pages[0].side(), Side::Left);
    assert_eq!(pages[1].side(), Side::Right);
    assert_eq!(pages[0].index(), 4);
    assert_eq!(pages[1].index(), 4);
    assert_eq!(pages[0].image.width() + pages[1].image.width(), 10);
    assert_eq!(pages[0].image.height(), 4);
    assert_eq!(pages[1].image.height(), 4);
    assert_eq!(pages[0].image.pixel(0, 2), Pixel { r: 0, g: 2, b: 0, a: 255 });
    assert_eq!(pages[0].image.pixel(4, 0), Pixel { r: 4, g: 0, b: 0, a: 255 });
    assert_eq!(pages[1].image.pixel(0, 0), Pixel { r: 5, g: 0, b: 0, a: 255 });
    assert_eq!(pages[1].image.pixel(4, 3), Pixel { r: 9, g: 3, b: 0, a: 255 });
}

#[test]
fn spread_of_odd_width_loses_its_last_column() {
    let page = Page::new("1", gradient(7, 2));
    let pages = split_pages(page, &options(None, None, true));
    assert_eq!(pages.len(), 2);
    assert_eq!(pages[0].image.width(), 3);
    assert_eq!(pages[1].image.width(), 3);
    assert_eq!(pages[1].image.pixel(0, 0).r, 3);
    assert_eq!(pages[1].image.pixel(2, 0).r, 5);
}

#[test]
fn page_is_not_cut_when_not_asked_or_not_wide() {
    let wide = split_pages(Page::new("1", gradient(10, 4)), &options(None, None, false));
    assert_eq!(wide.len(), 1);
    assert_eq!(wide[0].side(), Side::Whole);
    assert_eq!(wide[0].image.width(), 10);
    let tall = split_pages(Page::new("2", gradient(4, 10)), &options(None, None, true));
    assert_eq!(tall.len(), 1);
    assert_eq!(tall[0].side(), Side::Whole);
    assert_eq!(tall[0].index(), 2);
    let square = split_pages(Page::new("3", gradient(4, 4)), &options(None, None, true));
    assert_eq!(square.len(), 1);
}

#[test]
fn scale_keeps_proportions_rounding_toward_zero() {
    assert_eq!(scale(1000, 1000, 1500), 666);
    assert_eq!(scale(800, 600, 1200), 400);
    assert_eq!(scale(3, 500, 1000), 1);
    assert_eq!(scale(1, 1, 3), 0);
    assert_eq!(scale(4_000_000_000, 2, 1), u32::MAX);
    assert_eq!(scale(5, 7, 0), u32::MAX);
    assert_eq!(scale(0, 7, 0), 0);
}

#[test]
fn wanted_size_fills_in_the_zero() {
    assert_eq!(wanted_size(1000, 1500, Some([0, 1000])), Some((666, 1000)));
    assert_eq!(wanted_size(1000, 1500, Some([500, 0])), Some((500, 750)));
    assert_eq!(wanted_size(1000, 1500, Some([300, 200])), Some((300, 200)));
    assert_eq!(wanted_size(1000, 1500, Some([0, 0])), None);
    assert_eq!(wanted_size(1000, 1500, None), None);
}

#[test]
fn resize_to_a_height_gives_that_height() {
    let mut image = gradient(10, 15);
    resize(&mut image, &options(Some([0, 9]), None, false));
    assert_eq!(image.height(), 9);
    assert_eq!(image.width(), 6);
    assert_eq!(image.samples().len(), 4 * 6 * 9);
}

#[test]
fn resize_to_a_width_gives_that_width() {
    let mut image = gradient(10, 15);
    resize(&mut image, &options(Some([4, 0]), None, false));
    assert_eq!(image.width(), 4);
    assert_eq!(image.height(), 6);
}

#[test]
fn resize_to_both_gives_both() {
    let mut image = gradient(10, 15);
    resize(&mut image, &options(Some([7, 3]), None, false));
    assert_eq!(image.width(), 7);
    assert_eq!(image.height(), 3);
    let mut larger = gradient(2, 2);
    resize(&mut larger, &options(Some([8, 6]), None, false));
    assert_eq!(larger.width(), 8);
    assert_eq!(larger.height(), 6);
    assert_eq!(larger.samples().len(), 4 * 8 * 6);
}

#[test]
fn resize_without_a_size_changes_nothing() {
    for resolution in [None, Some([0, 0])] {
        let mut image = gradient(10, 15);
        resize(&mut image, &options(resolution, None, false));
        assert_eq!(image.width(), 10);
        assert_eq!(image.height(), 15);
        assert_eq!(image.samples(), gradient(10, 15).samples());
    }
}

#[test]
fn resize_blends_neighbouring_pixels() {
    // One black and one white pixel become a single grey one.
    let mut image = Raster::from_samples(2, 1, vec![0, 0, 0, 255, 255, 255, 255, 255]).unwrap();
    resize(&mut image, &options(Some([1, 1]), None, false));
    let grey = image.pixel(0, 0);
    assert!(grey.r > 64 && grey.r < 192);
    assert_eq!(grey.a, 255);
}

#[test]
fn resize_checked_refuses_what_cannot_be_addressed() {
    let mut image = gradient(2, 2);
    let refused = resize_checked(&mut image, &options(Some([u32::MAX, u32::MAX]), None, false));
    assert_eq!(refused, Err(Error::ResolutionTooLarge));
    assert_eq!(image.width(), 2);
    assert_eq!(image.samples(), gradient(2, 2).samples());
    let done = resize_checked(&mut image, &options(Some([4, 0]), None, false));
    assert_eq!(done, Ok(()));
    assert_eq!(image.width(), 4);
    assert_eq!(image.height(), 4);
}
