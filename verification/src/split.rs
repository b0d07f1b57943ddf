//! Cutting a double-page spread into its two pages.

use crate::config::Config;
use crate::page::Page;
use crate::page::PageView;
use crate::page::Side;
use vstd::prelude::*;

verus! {

/// What the pages of a sequence are.
pub open spec fn views(pages: Seq<Page>) -> Seq<PageView> {
    pages.map_values(|page: Page| page@)
}

/// A page is a spread when it is wider than tall.
pub open spec fn is_spread(page: PageView) -> bool {
    page.image.width > page.image.height
}

/// What cutting makes of a page. A spread, when cutting is asked for, gives
/// its left half and then its right half: each as high as the spread and half
/// as wide (the last column of an odd width is dropped), each with the index
/// of the spread. Any other page is handed back alone and as it is.
pub open spec fn is_split(page: PageView, enabled: bool, pages: Seq<PageView>) -> bool {
    if enabled && is_spread(page) {
        let half = page.image.width / 2;
        &&& pages.len() == 2
        &&& pages[0].index == page.index
        &&& pages[0].side == Side::Left
        &&& pages[0].image.width == half
        &&& pages[0].image.is_columns_of(page.image, 0)
        &&& pages[1].index == page.index
        &&& pages[1].side == Side::Right
        &&& pages[1].image.width == half
        &&& pages[1].image.is_columns_of(page.image, half as int)
    } else {
        pages == seq![page]
    }
}

/// Cuts `page` into its two halves when `config` asks for it and the page
/// is a spread.
pub fn split_pages(page: Page, config: &Config) -> (pages: Vec<Page>)
    ensures
        is_split(page@, config.split_pages, views(pages@)),
{
    if config.split_pages && page.image.width() > page.image.height() {
        let half = page.image.width() / 2;
        let page_a = page.half(Side::Left, page.image.columns(0, half));
        let page_b = page.half(Side::Right, page.image.columns(half, half));
        let pages = vec![page_a, page_b];
        proof {
            assert(views(pages@)[0] == page_a@);
            assert(views(pages@)[1] == page_b@);
        }
        pages
    } else {
        let ghost whole = page@;
        let pages = vec![page];
        proof {
            assert(views(pages@) =~= seq![whole]);
        }
        pages
    }
}

/// The two halves of a spread are as high as the spread, carry its index,
/// and are together as wide as the spread, less one column when its width
/// is odd.
pub proof fn lemma_halves_cover_spread(page: PageView, pages: Seq<PageView>)
    requires
        is_spread(page),
        is_split(page, true, pages),
    ensures
        pages.len() == 2,
        pages[0].image.width + pages[1].image.width == page.image.width - page.image.width % 2,
        pages[0].image.height == page.image.height,
        pages[1].image.height == page.image.height,
        pages[0].index == page.index,
        pages[1].index == page.index,
{
}

} // verus!
