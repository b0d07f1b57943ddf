use manga_koukan::digits::path_to_num;
use manga_koukan::order::order;
use manga_koukan::page::Page;
use manga_koukan::page::Side;
use manga_koukan::raster::Pixel;
use manga_koukan::raster::Raster;
use std::cmp::Ordering;

fn blank(width: u32, height: u32) -> Raster {
    let samples = vec![255u8; 4 * (width as usize) * (height as usize)];
    Raster::from_samples(width, height, samples).unwrap()
}

fn tinted(shade: u8) -> Raster {
    Raster::from_samples(1, 1, vec![shade, shade, shade, 255]).unwrap()
}

#[test]
fn index_is_made_of_all_digits_of_the_path() {
    assert_eq!(path_to_num("page12.png"), 12);
    assert_eq!(path_to_num("vol3/page12.png"), 312);
    assert_eq!(path_to_num("a1b2c3"), 123);
    assert_eq!(path_to_num("007.jpg"), 7);
}

#[test]
fn index_is_zero_without_digits() {
    assert_eq!(path_to_num("cover.png"), 0);
    assert_eq!(path_to_num(""), 0);
}

#[test]
fn index_is_zero_when_the_number_is_too_large() {
    assert_eq!(path_to_num("99999999999999999999999999999999.png"), 0);
    assert_eq!(path_to_num("18446744073709551615"), 18446744073709551615usize);
    assert_eq!(path_to_num("18446744073709551616"), 0);
    assert_eq!(path_to_num("000000000000000000000000000000042"), 42);
}

#[test]
fn index_ignores_digits_of_other_scripts() {
    assert_eq!(path_to_num("page\u{0663}4.png"), 4);
}

#[test]
fn new_page_is_whole_and_carries_the_index_of_its_path() {
    let page = Page::new("scans/page07.png", blank(2, 3));
    assert_eq!(page.index(), 7);
    assert_eq!(page.side(), Side::Whole);
    assert_eq!(page.image.width(), 2);
    assert_eq!(page.image.height(), 3);
}

#[test]
fn smaller_index_comes_first_whatever_the_half() {
    let early = Page::new("1", blank(1, 1)).half(Side::Left, blank(1, 1));
    let late = Page::new("2", blank(1, 1));
    assert_eq!(early.cmp(&late), Ordering::Less);
    assert_eq!(late.cmp(&early), Ordering::Greater);
    assert!(early < late);
    assert!(late > early);
    assert!(early.comes_before(&late));
    assert!(!late.comes_before(&early));
}

#[test]
fn halves_of_one_index_go_whole_right_left() {
    let source = Page::new("5", blank(1, 1));
    let whole = Page::new("5", blank(1, 1));
    let right = source.half(Side::Right, blank(1, 1));
    let left = source.half(Side::Left, blank(1, 1));
    assert_eq!(whole.cmp(&right), Ordering::Less);
    assert_eq!(right.cmp(&left), Ordering::Less);
    assert_eq!(whole.cmp(&left), Ordering::Less);
    assert_eq!(left.cmp(&right), Ordering::Greater);
    assert_eq!(left.cmp(&whole), Ordering::Greater);
    assert_eq!(right.cmp(&whole), Ordering::Greater);
    assert_eq!(right.partial_cmp(&left), Some(Ordering::Less));
    assert!(Side::Whole < Side::Right);
    assert!(Side::Right < Side::Left);
    assert_eq!(Side::Whole.precedence(), 0);
    assert_eq!(Side::Right.precedence(), 1);
    assert_eq!(Side::Left.precedence(), 2);
}

#[test]
fn pages_are_equal_by_place_and_not_by_picture() {
    let dark = Page::new("3", tinted(0));
    let light = Page::new("3", tinted(200));
    assert!(dark == light);
    assert_eq!(dark.cmp(&light), Ordering::Equal);
    let other = Page::new("4", tinted(0));
    assert!(dark != other);
    let half = dark.half(Side::Left, tinted(0));
    assert!(dark != half);
}

#[test]
fn order_sorts_by_index_then_half() {
    let spread = Page::new("2", blank(1, 1));
    let pages = vec![
        Page::new("10", tinted(10)),
        spread.half(Side::Left, tinted(21)),
        spread.half(Side::Right, tinted(22)),
        Page::new("1", tinted(1)),
        Page::new("2", tinted(20)),
    ];
    let ordered = order(pages);
    let shades: Vec<u8> = ordered.iter().map(|page| page.image.pixel(0, 0).r).collect();
    assert_eq!(shades, vec![1, 20, 22, 21, 10]);
}

#[test]
fn order_keeps_pages_of_one_place_as_they_came() {
    let pages = vec![
        Page::new("7", tinted(3)),
        Page::new("4", tinted(9)),
        Page::new("7", tinted(1)),
        Page::new("7", tinted(2)),
        Page::new("4", tinted(8)),
    ];
    let ordered = order(pages);
    let shades: Vec<u8> = ordered.iter().map(|page| page.image.pixel(0, 0).r).collect();
    assert_eq!(shades, vec![9, 8, 3, 1, 2]);
}

#[test]
fn order_of_nothing_is_nothing() {
    let ordered = order(Vec::<Page>::new());
    assert!(ordered.is_empty());
}

#[test]
fn order_does_not_depend_on_arrival() {
    let forward = order(vec![
        Page::new("1", tinted(1)),
        Page::new("2", tinted(2)),
        Page::new("3", tinted(3)),
    ]);
    let backward = order(vec![
        Page::new("3", tinted(3)),
        Page::new("2", tinted(2)),
        Page::new("1", tinted(1)),
    ]);
    let a: Vec<Pixel> = forward.iter().map(|page| page.image.pixel(0, 0)).collect();
    let b: Vec<Pixel> = backward.iter().map(|page| page.image.pixel(0, 0)).collect();
    assert_eq!(a, b);
    assert_eq!(a[0].r, 1);
    assert_eq!(a[2].r, 3);
}
