//! Making the pages of one file: reading the picture, trimming its margins,
//! cutting a spread and bringing the pages to the resolution asked for.

use crate::codec::decode;
use crate::codec::decoded_picture;
use crate::codec::format_named;
use crate::codec::format_of_path;
use crate::config::Config;
use crate::digits::sequence_index;
use crate::error::Error;
use crate::margin::is_trimmed;
use crate::margin::process_margin;
use crate::page::Page;
use crate::page::PageView;
use crate::page::Side;
use crate::raster::RasterView;
use crate::resize::fits;
use crate::resize::is_resized;
use crate::resize::resize_checked;
use crate::source::SourceFile;
use crate::split::is_split;
use crate::split::split_pages;
use crate::split::views;
use vstd::prelude::*;

verus! {

/// What trimming makes of a picture: nothing without a tolerance.
pub open spec fn is_trimmed_as_asked(
    before: RasterView,
    margin: Option<i32>,
    after: RasterView,
) -> bool {
    match margin {
        None => after == before,
        Some(tolerance) => is_trimmed(before, tolerance as int, after),
    }
}

/// `after` is the page `before`, brought to the resolution asked for.
pub open spec fn is_resized_page(
    before: PageView,
    resolution: Option<[u32; 2]>,
    after: PageView,
) -> bool {
    &&& after.index == before.index
    &&& after.side == before.side
    &&& is_resized(before.image, resolution, after.image)
}

/// The steps from a page as it was read to the pages that are packed: the
/// picture is trimmed to `trimmed`, the trimmed page is cut into `cut`, and
/// each page of `cut` is resized to the page of `pages` at the same
/// position.
pub open spec fn is_made_through(
    page: PageView,
    config: Config,
    trimmed: RasterView,
    cut: Seq<PageView>,
    pages: Seq<PageView>,
) -> bool {
    &&& is_prepared(page, config, trimmed, cut)
    &&& pages.len() == cut.len()
    &&& forall|i: int|
        0 <= i < cut.len() ==> is_resized_page(#[trigger] cut[i], config.resolution, pages[i])
}

/// The first two steps: the picture of `page` is trimmed to `trimmed`, and
/// the trimmed page is cut into `cut`.
pub open spec fn is_prepared(
    page: PageView,
    config: Config,
    trimmed: RasterView,
    cut: Seq<PageView>,
) -> bool {
    &&& is_trimmed_as_asked(page.image, config.remove_margin, trimmed)
    &&& is_split(
        PageView { image: trimmed, index: page.index, side: page.side },
        config.split_pages,
        cut,
    )
}

/// Every page can be resized on this machine.
pub open spec fn all_fit(cut: Seq<PageView>, resolution: Option<[u32; 2]>) -> bool {
    forall|i: int| 0 <= i < cut.len() ==> fits((#[trigger] cut[i]).image, resolution)
}

/// `pages` are what `config` makes of `page`.
pub open spec fn is_made_of(page: PageView, config: Config, pages: Seq<PageView>) -> bool {
    exists|trimmed: RasterView, cut: Seq<PageView>|
        #[trigger] is_made_through(page, config, trimmed, cut, pages) && all_fit(
            cut,
            config.resolution,
        )
}

/// `page` cannot be made ready: one of the pages it is cut into cannot be
/// resized on this machine.
pub open spec fn is_too_large(page: PageView, config: Config) -> bool {
    exists|trimmed: RasterView, cut: Seq<PageView>|
        #[trigger] is_prepared(page, config, trimmed, cut) && !all_fit(cut, config.resolution)
}

/// Makes a page ready: trims its margins where a tolerance is given, cuts
/// it where it is a spread and cutting is asked for, and resizes what comes
/// of it.
pub fn transform_page(config: &Config, page: Page) -> (made: Result<Vec<Page>, Error>)
    ensures
        match made {
            Ok(pages) => is_made_of(page@, *config, views(pages@)) && 1 <= pages@.len() <= 2,
            Err(error) => error == Error::ResolutionTooLarge && is_too_large(page@, *config),
        },
{
    let ghost given = page@;
    let Page { image, index, side } = page;
    let mut image = image;
    if let Some(margin) = config.remove_margin {
        process_margin(&mut image, margin);
    }
    let ghost trimmed = image@;
    let cut = split_pages(Page { image, index, side }, config);
    let ghost cut_views = views(cut@);
    let mut pages: Vec<Page> = Vec::new();
    let ghost mut seen: Seq<Page> = Seq::empty();
    proof {
        vstd::std_specs::vec::axiom_spec_into_iter(cut);
        assert(is_prepared(given, *config, trimmed, cut_views));
    }
    for part in it: cut.into_iter()
        invariant
            it.seq() == cut@,
            given == page@,
            cut_views == views(cut@),
            seen == cut@.take(it.index()),
            pages@.len() == it.index(),
            is_prepared(given, *config, trimmed, cut_views),
            forall|i: int|
                0 <= i < it.index() ==> fits((#[trigger] cut_views[i]).image, config.resolution)
                    && is_resized_page(cut_views[i], config.resolution, pages@[i]@),
    {
        proof {
            assert(cut_views[it.index()] == part@);
            seen = seen.push(part);
        }
        let Page { image: picture, index: number, side: half } = part;
        let mut picture = picture;
        match resize_checked(&mut picture, config) {
            Ok(()) => {
                pages.push(Page { image: picture, index: number, side: half });
            },
            Err(error) => {
                proof {
                    assert(!fits(cut_views[it.index()].image, config.resolution));
                }
                return Err(error);
            },
        }
        proof {
            assert(seen =~= cut@.take(it.index() + 1));
        }
    }
    proof {
        assert(is_made_through(given, *config, trimmed, cut_views, views(pages@)));
    }
    Ok(pages)
}

/// How many pages a page gives is fixed by the page and the options:
/// whatever else meets the same description has as many.
pub proof fn lemma_page_count_is_fixed(
    page: PageView,
    config: Config,
    a: Seq<PageView>,
    b: Seq<PageView>,
)
    requires
        is_made_of(page, config, a),
        is_made_of(page, config, b),
    ensures
        a.len() == b.len(),
{
    let (trimmed_a, cut_a) = choose|trimmed: RasterView, cut: Seq<PageView>|
        #[trigger] is_made_through(page, config, trimmed, cut, a) && all_fit(
            cut,
            config.resolution,
        );
    let (trimmed_b, cut_b) = choose|trimmed: RasterView, cut: Seq<PageView>|
        #[trigger] is_made_through(page, config, trimmed, cut, b) && all_fit(
            cut,
            config.resolution,
        );
    assert(trimmed_a.width == trimmed_b.width);
    assert(trimmed_a.height == trimmed_b.height);
}

/// The page that a file gives before anything is done to it: the picture
/// it holds, under the index that its path carries.
pub open spec fn page_of(path: Seq<char>, image: RasterView) -> PageView {
    PageView { image, index: sequence_index(path), side: Side::Whole }
}

/// The picture that a file holds: what its bytes read as in the format
/// that its path names. A file whose path names no format, or whose bytes
/// are no picture of that format, holds none.
pub open spec fn picture_of(entry: SourceFile) -> Option<RasterView> {
    match format_named(entry.path@) {
        None => None,
        Some(format) => decoded_picture(entry.data@, format),
    }
}

/// The file holds a picture, and `pages` are what `config` makes of it.
pub open spec fn gives_pages(config: Config, entry: SourceFile, pages: Seq<PageView>) -> bool {
    picture_of(entry) matches Some(image) && is_made_of(
        page_of(entry.path@, image),
        config,
        pages,
    )
}

/// Why a file gives no pages: it holds no picture, which is a decode
/// failure, or its picture cannot be resized on this machine.
pub open spec fn gives_error(config: Config, entry: SourceFile, error: Error) -> bool {
    match picture_of(entry) {
        None => error == Error::DecodeFailure,
        Some(image) => error == Error::ResolutionTooLarge && is_too_large(
            page_of(entry.path@, image),
            config,
        ),
    }
}

/// Makes the pages of one file. The file is read as a picture of the
/// format that its path names; what comes of reading it is then made ready.
/// A file that holds no picture never gives a page.
pub fn convert_page(config: &Config, entry: &SourceFile) -> (made: Result<Vec<Page>, Error>)
    ensures
        match made {
            Ok(pages) => gives_pages(*config, *entry, views(pages@)) && 1 <= pages@.len() <= 2,
            Err(error) => gives_error(*config, *entry, error),
        },
{
    let path = entry.path.as_str();
    let format = match format_of_path(path) {
        Some(format) => format,
        None => {
            return Err(Error::DecodeFailure);
        },
    };
    let image = match decode(entry.data.as_slice(), format) {
        Ok(image) => image,
        Err(_) => {
            return Err(Error::DecodeFailure);
        },
    };
    let ghost read = image@;
    let page = Page::new(path, image);
    proof {
        assert(page@ == page_of(entry.path@, read));
    }
    transform_page(config, page)
}

} // verus!
