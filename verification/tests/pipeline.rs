use manga_koukan::config::ArchiveFormat;
use manga_koukan::config::Config;
use manga_koukan::config::OutputFormat;
use manga_koukan::config::same_text;
use manga_koukan::convert::convert_page;
use manga_koukan::convert::transform_page;
use manga_koukan::digits::path_to_num;
use manga_koukan::digits::write_decimal;
use manga_koukan::error::Error;
use manga_koukan::page::Page;
use manga_koukan::page::Side;
use manga_koukan::pipeline::assemble;
use manga_koukan::pipeline::compress;
use manga_koukan::pipeline::cover_entry_name;
use manga_koukan::pipeline::emit;
use manga_koukan::pipeline::encode_page;
use manga_koukan::pipeline::file_name;
use manga_koukan::pipeline::page_entry_name;
use manga_koukan::pipeline::pass_through;
use manga_koukan::pipeline::written_or_failure;
use manga_koukan::pipeline::ArchiveEntry;
use manga_koukan::raster::Pixel;
use manga_koukan::raster::Raster;
use manga_koukan::run;
use manga_koukan::source::discover;
use manga_koukan::source::is_image;
use manga_koukan::source::pictures;
use manga_koukan::source::SourceFile;

fn format(extension: &str) -> OutputFormat {
    OutputFormat::from_extension(extension).unwrap()
}

fn options(image_format: Option<OutputFormat>, split: bool) -> Config {
    Config {
        image_format,
        archive_format: ArchiveFormat::CBZ,
        resolution: None,
        remove_margin: None,
        split_pages: split,
    }
}

fn solid(width: u32, height: u32, color: [u8; 4]) -> Raster {
    let mut samples = Vec::new();
    for _ in 0..(width as usize) * (height as usize) {
        samples.extend_from_slice(&color);
    }
    Raster::from_samples(width, height, samples).unwrap()
}

fn png(image: &Raster) -> Vec<u8> {
    encode_page(image, &format("png")).unwrap()
}

fn file(path: &str, data: Vec<u8>) -> SourceFile {
    SourceFile { path: path.to_string(), data }
}

/// The picture that an entry holds.
fn shown(entry: &ArchiveEntry) -> Raster {
    let source = file(&entry.name, entry.data.clone());
    let mut pages = convert_page(&options(None, false), &source).unwrap();
    assert_eq!(pages.len(), 1);
    pages.remove(0).image
}

fn names(entries: &[ArchiveEntry]) -> Vec<String> {
    entries.iter().map(|entry| entry.name.clone()).collect()
}

const RED: [u8; 4] = [255, 0, 0, 255];
const GREEN: [u8; 4] = [0, 255, 0, 255];
const BLUE: [u8; 4] = [0, 0, 255, 255];

#[test]
fn archive_formats_have_names() {
    assert_eq!(ArchiveFormat::from("cbz"), Some(ArchiveFormat::CBZ));
    assert_eq!(ArchiveFormat::from("cbt"), Some(ArchiveFormat::CBT));
    assert_eq!(ArchiveFormat::from("zip"), None);
    assert_eq!(ArchiveFormat::from(""), None);
    assert_eq!(ArchiveFormat::from("CBZ"), None);
    assert_eq!(ArchiveFormat::CBZ.into(), "cbz");
    assert_eq!(ArchiveFormat::CBT.into(), "cbz");
}

#[test]
fn texts_are_compared_character_by_character() {
    assert!(same_text("cbz", "cbz"));
    assert!(!same_text("cbz", "cbt"));
    assert!(!same_text("cbz", "cbzz"));
    assert!(same_text("", ""));
    assert!(same_text("p\u{e9}", "p\u{e9}"));
    assert!(!same_text("p\u{e9}", "pe"));
}

#[test]
fn output_format_goes_by_extension() {
    assert_eq!(format("png").extension_str(), "png");
    assert_eq!(format("jpeg").extension_str(), "jpg");
    assert_eq!(format("JPG").extension_str(), "jpg");
    assert_eq!(format("tif").extension_str(), "tiff");
    assert!(OutputFormat::from_extension("txt").is_none());
    assert!(OutputFormat::from_extension("").is_none());
}

#[test]
fn three_formats_are_left_to_the_machine() {
    for extension in ["png", "jpg", "gif", "bmp", "webp", "tiff", "qoi", "tga", "ico"] {
        assert!(format(extension).comes_out_alike());
    }
    for extension in ["avif", "exr", "hdr"] {
        assert!(!format(extension).comes_out_alike());
    }
}

#[test]
fn pictures_are_known_by_their_extension() {
    assert!(is_image("page1.png"));
    assert!(is_image("scans/page1.JPG"));
    assert!(is_image("a.b.webp"));
    assert!(!is_image("notes.txt"));
    assert!(!is_image("png"));
    assert!(!is_image("folder.png/readme"));
}

#[test]
fn numbers_are_written_in_base_ten() {
    for (number, text) in [(0usize, "0"), (7, "7"), (10, "10"), (42, "42"), (1905, "1905")] {
        let mut written = String::new();
        write_decimal(number, &mut written);
        assert_eq!(written, text);
    }
    let mut after = String::from("page");
    write_decimal(usize::MAX, &mut after);
    assert_eq!(after, format!("page{}", usize::MAX));
}

#[test]
fn entries_are_named_by_position() {
    assert_eq!(cover_entry_name("png"), "cover.png");
    assert_eq!(page_entry_name(0, "png"), "0.png");
    assert_eq!(page_entry_name(12, "jpg"), "12.jpg");
    assert_eq!(page_entry_name(100, ""), "100.");
}

#[test]
fn entry_names_carry_their_position() {
    for position in [0usize, 5, 10, 99, 1234] {
        assert_eq!(path_to_num(&page_entry_name(position, "png")), position);
    }
}

#[test]
fn file_name_is_what_follows_the_last_slash() {
    assert_eq!(file_name("scans/vol1/page1.png"), "page1.png");
    assert_eq!(file_name("page1.png"), "page1.png");
    assert_eq!(file_name("scans/"), "");
    assert_eq!(file_name("/page.png"), "page.png");
    assert_eq!(file_name(""), "");
    assert_eq!(file_name("d\u{e9}j\u{e0}/v\u{fc}.png"), "v\u{fc}.png");
}

#[test]
fn pictures_are_kept_in_their_order() {
    let kept = pictures(vec![
        file("b.png", vec![1]),
        file("notes.txt", vec![2]),
        file("a.jpg", vec![3]),
        file("c", vec![4]),
    ]);
    let paths: Vec<&str> = kept.iter().map(|file| file.path.as_str()).collect();
    assert_eq!(paths, vec!["b.png", "a.jpg"]);
    assert_eq!(kept[1].data, vec![3]);
}

#[test]
fn discover_orders_pictures_by_number() {
    let found = discover(vec![
        file("page2.png", vec![]),
        file("page10.png", vec![]),
        file("readme.md", vec![]),
        file("page1.png", vec![]),
        file("page02.jpg", vec![]),
    ])
    .unwrap();
    let paths: Vec<&str> = found.iter().map(|file| file.path.as_str()).collect();
    assert_eq!(paths, vec!["page1.png", "page2.png", "page02.jpg", "page10.png"]);
}

#[test]
fn discover_fails_without_pictures() {
    assert_eq!(discover(vec![]).unwrap_err(), Error::NoImagesFound);
    let none = discover(vec![file("a.txt", vec![]), file("b", vec![])]);
    assert_eq!(none.unwrap_err(), Error::NoImagesFound);
}

#[test]
fn written_picture_reads_back() {
    let image = solid(3, 2, RED);
    let pages = convert_page(&options(None, false), &file("page5.png", png(&image))).unwrap();
    assert_eq!(pages.len(), 1);
    assert_eq!(pages[0].index(), 5);
    assert_eq!(pages[0].side(), Side::Whole);
    assert_eq!(pages[0].image.width(), 3);
    assert_eq!(pages[0].image.height(), 2);
    assert_eq!(pages[0].image.pixel(2, 1), Pixel { r: 255, g: 0, b: 0, a: 255 });
    assert_eq!(pages[0].image.samples(), image.samples());
}

#[test]
fn picture_is_written_in_the_format_asked_for() {
    let image = solid(4, 4, BLUE);
    let as_png = encode_page(&image, &format("png")).unwrap();
    assert_eq!(as_png[..8], [0x89, b'P', b'N', b'G', 0x0d, 0x0a, 0x1a, 0x0a]);
    let as_bmp = encode_page(&image, &format("bmp")).unwrap();
    assert_eq!(as_bmp[..2], [b'B', b'M']);
    let as_jpeg = encode_page(&image, &format("jpg")).unwrap();
    assert_eq!(as_jpeg[..2], [0xff, 0xd8]);
}

#[test]
fn unreadable_picture_is_a_decode_failure() {
    let garbage = file("page1.png", vec![1, 2, 3, 4]);
    assert_eq!(convert_page(&options(None, false), &garbage).unwrap_err(), Error::DecodeFailure);
    let wrong = file("page1.jpg", png(&solid(1, 1, RED)));
    assert_eq!(convert_page(&options(None, false), &wrong).unwrap_err(), Error::DecodeFailure);
    let unnamed = file("page1", png(&solid(1, 1, RED)));
    assert_eq!(convert_page(&options(None, false), &unnamed).unwrap_err(), Error::DecodeFailure);
}

#[test]
fn what_was_written_is_handed_on_and_any_error_is_an_encode_failure() {
    assert_eq!(written_or_failure(Ok(vec![1, 2, 3])), Ok(vec![1, 2, 3]));
    assert_eq!(written_or_failure(Ok(vec![])), Ok(vec![]));
    let broken = std::io::Error::new(std::io::ErrorKind::Other, "broken");
    let failed = written_or_failure(Err(image::ImageError::IoError(broken)));
    assert_eq!(failed, Err(Error::EncodeFailure));
}

#[test]
fn unwritable_format_is_an_encode_failure() {
    let image = solid(2, 2, RED);
    assert_eq!(encode_page(&image, &format("dds")).unwrap_err(), Error::EncodeFailure);
    let pages = vec![Page::new("1", solid(2, 2, RED))];
    assert_eq!(emit(&format("dds"), pages).unwrap_err(), Error::EncodeFailure);
}

#[test]
fn oversized_resolution_is_refused() {
    let mut config = options(None, false);
    config.resolution = Some([u32::MAX, u32::MAX]);
    let made = transform_page(&config, Page::new("1", solid(2, 2, RED)));
    assert_eq!(made.unwrap_err(), Error::ResolutionTooLarge);
    let refused = convert_page(&config, &file("1.png", png(&solid(2, 2, RED))));
    assert_eq!(refused.unwrap_err(), Error::ResolutionTooLarge);
}

#[test]
fn page_is_trimmed_then_cut_then_resized() {
    // A spread of 40 by 10 with content in the columns 4 ..= 35.
    let mut samples = Vec::new();
    for _ in 0..10 {
        for x in 0..40u32 {
            let shade = if (4..=35).contains(&x) { 0 } else { 255 };
            samples.extend_from_slice(&[shade, shade, shade, 255]);
        }
    }
    let spread = Raster::from_samples(40, 10, samples).unwrap();
    let config = Config {
        image_format: None,
        archive_format: ArchiveFormat::CBZ,
        resolution: Some([0, 5]),
        remove_margin: Some(-900_000),
        split_pages: true,
    };
    let pages = transform_page(&config, Page::new("page3.png", spread)).unwrap();
    // Trimmed to the 31 columns 4 .. 35, cut into halves of 15, resized
    // from 15 by 10 to a height of 5.
    assert_eq!(pages.len(), 2);
    assert_eq!(pages[0].side(), Side::Left);
    assert_eq!(pages[1].side(), Side::Right);
    for page in &pages {
        assert_eq!(page.index(), 3);
        assert_eq!(page.image.height(), 5);
        assert_eq!(page.image.width(), 7);
    }
}

#[test]
fn assemble_puts_the_first_page_on_the_cover() {
    let entries = assemble(vec![vec![1, 2], vec![3], vec![4, 5, 6]], "png");
    assert_eq!(names(&entries), vec!["cover.png", "0.png", "1.png", "2.png"]);
    assert_eq!(entries[0].data, vec![1, 2]);
    assert_eq!(entries[1].data, vec![1, 2]);
    assert_eq!(entries[2].data, vec![3]);
    assert_eq!(entries[3].data, vec![4, 5, 6]);
}

#[test]
fn emit_writes_pages_in_reading_order() {
    let pages = vec![
        Page::new("3", solid(1, 1, BLUE)),
        Page::new("1", solid(1, 1, RED)),
        Page::new("2", solid(1, 1, GREEN)),
    ];
    let entries = emit(&format("png"), pages).unwrap();
    assert_eq!(names(&entries), vec!["cover.png", "0.png", "1.png", "2.png"]);
    assert_eq!(shown(&entries[0]).pixel(0, 0).r, 255);
    assert_eq!(shown(&entries[1]).pixel(0, 0).r, 255);
    assert_eq!(shown(&entries[2]).pixel(0, 0).g, 255);
    assert_eq!(shown(&entries[3]).pixel(0, 0).b, 255);
    assert_eq!(entries[0].data, entries[1].data);
}

#[test]
fn emit_has_nothing_to_pack_without_pages() {
    assert_eq!(emit(&format("png"), vec![]).unwrap_err(), Error::NoImagesFound);
}

#[test]
fn files_pass_through_under_their_names() {
    let entries = pass_through(vec![
        file("in/page1.png", vec![9, 9]),
        file("in/page2.gif", vec![7]),
    ]);
    assert_eq!(names(&entries), vec!["page1.png", "page2.gif"]);
    assert_eq!(entries[0].data, vec![9, 9]);
    assert_eq!(entries[1].data, vec![7]);
}

#[test]
fn compress_packs_the_files_in_the_order_given() {
    let sources = vec![file("b2.png", png(&solid(1, 1, GREEN))), file("a1.png", vec![0])];
    let copied = compress(&options(None, false), sources).unwrap();
    assert_eq!(names(&copied), vec!["b2.png", "a1.png"]);
    assert_eq!(copied[1].data, vec![0]);
    let nothing = compress(&options(Some(format("png")), false), vec![]);
    assert_eq!(nothing.unwrap_err(), Error::NoImagesFound);
    let packed = compress(&options(None, false), vec![]).unwrap();
    assert!(packed.is_empty());
}

#[test]
fn run_orders_pages_by_the_numbers_in_their_names() {
    let files = vec![
        file("in/page2.png", png(&solid(2, 3, GREEN))),
        file("in/page10.png", png(&solid(2, 3, BLUE))),
        file("in/page1.png", png(&solid(2, 3, RED))),
    ];
    let entries = run(&options(Some(format("png")), true), files).unwrap();
    assert_eq!(names(&entries), vec!["cover.png", "0.png", "1.png", "2.png"]);
    let red = Pixel { r: 255, g: 0, b: 0, a: 255 };
    let green = Pixel { r: 0, g: 255, b: 0, a: 255 };
    let blue = Pixel { r: 0, g: 0, b: 255, a: 255 };
    assert_eq!(shown(&entries[0]).pixel(0, 0), red);
    assert_eq!(shown(&entries[1]).pixel(0, 0), red);
    assert_eq!(shown(&entries[2]).pixel(0, 0), green);
    assert_eq!(shown(&entries[3]).pixel(0, 0), blue);
    assert_eq!(shown(&entries[3]).width(), 2);
    assert_eq!(shown(&entries[3]).height(), 3);
}

#[test]
fn run_cuts_a_spread_into_two_pages_behind_the_cover() {
    // Left half red, right half blue.
    let mut samples = Vec::new();
    for _ in 0..4 {
        for x in 0..10 {
            samples.extend_from_slice(if x < 5 { &RED } else { &BLUE });
        }
    }
    let spread = Raster::from_samples(10, 4, samples).unwrap();
    let files = vec![file("page1.png", png(&spread))];
    let entries = run(&options(Some(format("png")), true), files).unwrap();
    assert_eq!(names(&entries), vec!["cover.png", "0.png", "1.png"]);
    // The right half is read first.
    assert_eq!(shown(&entries[1]).pixel(0, 0).b, 255);
    assert_eq!(shown(&entries[2]).pixel(0, 0).r, 255);
    assert_eq!(shown(&entries[0]).pixel(0, 0).b, 255);
    assert_eq!(shown(&entries[1]).width(), 5);
    assert_eq!(shown(&entries[2]).height(), 4);
}

#[test]
fn run_gives_the_same_archive_twice() {
    let input = || {
        vec![
            file("c3.png", png(&solid(6, 2, BLUE))),
            file("c1.png", png(&solid(2, 2, RED))),
            file("notes.txt", vec![1, 2, 3]),
            file("c2.png", png(&solid(2, 2, GREEN))),
        ]
    };
    let first = run(&options(Some(format("png")), true), input()).unwrap();
    let second = run(&options(Some(format("png")), true), input()).unwrap();
    assert_eq!(names(&first), names(&second));
    assert_eq!(names(&first), vec!["cover.png", "0.png", "1.png", "2.png", "3.png"]);
    for (a, b) in first.iter().zip(second.iter()) {
        assert_eq!(a.data, b.data);
    }
}

#[test]
fn run_packs_files_as_they_are_without_a_format() {
    let files = vec![
        file("in/page2.png", vec![2]),
        file("in/notes.txt", vec![0]),
        file("in/page10.jpg", vec![10]),
        file("in/page1.gif", vec![1]),
    ];
    let entries = run(&options(None, true), files).unwrap();
    assert_eq!(names(&entries), vec!["page1.gif", "page2.png", "page10.jpg"]);
    assert_eq!(entries[0].data, vec![1]);
    assert_eq!(entries[1].data, vec![2]);
    assert_eq!(entries[2].data, vec![10]);
}

#[test]
fn run_fails_without_pictures() {
    let none = run(&options(Some(format("png")), false), vec![file("a.txt", vec![])]);
    assert_eq!(none.unwrap_err(), Error::NoImagesFound);
    assert_eq!(run(&options(None, false), vec![]).unwrap_err(), Error::NoImagesFound);
}

#[test]
fn run_stops_at_a_picture_that_cannot_be_read() {
    let files = vec![file("1.png", png(&solid(1, 1, RED))), file("2.png", vec![0, 1, 2])];
    let failed = run(&options(Some(format("png")), false), files);
    assert_eq!(failed.unwrap_err(), Error::DecodeFailure);
}
