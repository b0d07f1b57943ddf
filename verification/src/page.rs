//! Pages and the order in which they are read.

use crate::digits::path_to_num;
use crate::digits::sequence_index;
use crate::order::precedes;
use crate::order::same_place;
use crate::order::Placed;
use crate::raster::Raster;
use crate::raster::RasterView;
use std::cmp::Ordering;
use vstd::prelude::*;

verus! {

/// Which half of a double-page spread a page is. Pages are read from right to
/// left, so the right half comes before the left one.
#[derive(Clone, Copy, Debug, PartialEq, Eq, PartialOrd, Ord, Hash, Structural)]
pub enum Side {
    /// A whole image that was not cut: no half at all.
    Whole,
    /// The right half of a spread.
    Right,
    /// The left half of a spread.
    Left,
}

impl Side {
    /// The place of the tag in the fixed order `Whole < Right < Left`.
    pub open spec fn rank(self) -> int {
        match self {
            Side::Whole => 0,
            Side::Right => 1,
            Side::Left => 2,
        }
    }

    /// The place of the tag in the fixed order `Whole < Right < Left`.
    pub fn precedence(&self) -> (place: u8)
        ensures
            place == self.rank(),
    {
        match self {
            Side::Whole => 0,
            Side::Right => 1,
            Side::Left => 2,
        }
    }
}

/// What a page is: its picture, its place in the book and its half.
pub struct PageView {
    pub image: RasterView,
    pub index: nat,
    pub side: Side,
}

impl PageView {
    /// `self` is read before `other`: it has the smaller index, or the same
    /// index and the earlier half.
    pub open spec fn precedes(self, other: PageView) -> bool {
        self.index < other.index || (self.index == other.index && self.side.rank()
            < other.side.rank())
    }

    /// Neither page is read before the other: same index, same half.
    pub open spec fn same_place(self, other: PageView) -> bool {
        self.index == other.index && self.side == other.side
    }

    /// How `self` compares to `other` in reading order.
    pub open spec fn compare(self, other: PageView) -> Ordering {
        if self.precedes(other) {
            Ordering::Less
        } else if other.precedes(self) {
            Ordering::Greater
        } else {
            Ordering::Equal
        }
    }
}

/// One image unit of the book. Its index and its half are fixed when it is
/// made.
#[derive(Debug)]
pub struct Page {
    pub image: Raster,
    pub(crate) index: usize,
    pub(crate) side: Side,
}

impl View for Page {
    type V = PageView;

    open(crate) spec fn view(&self) -> PageView {
        PageView { image: self.image@, index: self.index as nat, side: self.side }
    }
}

impl Page {
    /// The page that holds `image`, read from the file at `path`: its index
    /// is made of the digits of the whole path, and it is no half of a spread.
    pub fn new(path: &str, image: Raster) -> (page: Page)
        ensures
            page@.image == image@,
            page@.index == sequence_index(path@),
            page@.side == Side::Whole,
    {
        Page { image, index: path_to_num(path), side: Side::Whole }
    }

    /// One half of the spread `self`, showing `image`.
    pub fn half(&self, side: Side, image: Raster) -> (page: Page)
        ensures
            page@.image == image@,
            page@.index == self@.index,
            page@.side == side,
    {
        Page { image, index: self.index, side }
    }

    /// The place of the page in the book.
    pub fn index(&self) -> (index: usize)
        ensures
            index == self@.index,
    {
        self.index
    }

    /// Which half of a spread the page is.
    pub fn side(&self) -> (side: Side)
        ensures
            side == self@.side,
    {
        self.side
    }

    /// Whether `self` is read before `other`.
    pub fn comes_before(&self, other: &Page) -> (before: bool)
        ensures
            before == self@.precedes(other@),
    {
        self.index < other.index || (self.index == other.index && self.side.precedence()
            < other.side.precedence())
    }

    /// Compares two pages in reading order; the pictures play no part.
    pub fn cmp(&self, other: &Page) -> (order: Ordering)
        ensures
            order == self@.compare(other@),
    {
        if self.index < other.index {
            Ordering::Less
        } else if self.index > other.index {
            Ordering::Greater
        } else {
            let mine = self.side.precedence();
            let theirs = other.side.precedence();
            if mine < theirs {
                Ordering::Less
            } else if mine > theirs {
                Ordering::Greater
            } else {
                Ordering::Equal
            }
        }
    }
}

impl Placed for Page {
    open spec fn index(&self) -> nat {
        self@.index
    }

    open spec fn rank(&self) -> int {
        self@.side.rank()
    }

    fn stands_before(&self, other: &Page) -> (before: bool) {
        self.comes_before(other)
    }
}

impl PartialEq for Page {
    fn eq(&self, other: &Page) -> (same: bool) {
        self.index == other.index && self.side.precedence() == other.side.precedence()
    }
}

impl vstd::std_specs::cmp::PartialEqSpecImpl for Page {
    open spec fn obeys_eq_spec() -> bool {
        true
    }

    open spec fn eq_spec(&self, other: &Page) -> bool {
        self@.same_place(other@)
    }
}

impl Eq for Page {

}

impl PartialOrd for Page {
    fn partial_cmp(&self, other: &Page) -> (order: Option<Ordering>) {
        Some(self.cmp(other))
    }
}

impl vstd::std_specs::cmp::PartialOrdSpecImpl for Page {
    open spec fn obeys_partial_cmp_spec() -> bool {
        true
    }

    open spec fn partial_cmp_spec(&self, other: &Page) -> Option<Ordering> {
        Some(self@.compare(other@))
    }
}

/// The order in which pages are put is reading order: a page is placed
/// before another exactly when it is read before it.
pub proof fn lemma_pages_are_placed_in_reading_order(a: Page, b: Page)
    ensures
        precedes(a, b) == a@.precedes(b@),
        same_place(a, b) == a@.same_place(b@),
{
}

/// A page with the smaller index is read first, whatever the halves are.
pub proof fn lemma_smaller_index_first(a: PageView, b: PageView)
    requires
        a.index < b.index,
    ensures
        a.precedes(b),
        !b.precedes(a),
        a.compare(b) == Ordering::Less,
        b.compare(a) == Ordering::Greater,
{
}

/// Among pages of one index the halves decide, in the order
/// `Whole < Right < Left` and no other.
pub proof fn lemma_halves_in_fixed_order(a: PageView, b: PageView)
    requires
        a.index == b.index,
    ensures
        a.precedes(b) <==> (a.side == Side::Whole && b.side == Side::Right) || (a.side
            == Side::Whole && b.side == Side::Left) || (a.side == Side::Right && b.side
            == Side::Left),
        a.compare(b) == Ordering::Equal <==> a.side == b.side,
{
}

/// Reading order is a strict total order on `(index, half)`: no page precedes
/// itself, precedence is transitive, and of two pages in different places
/// exactly one precedes the other.
pub proof fn lemma_reading_order_is_total(a: PageView, b: PageView, c: PageView)
    ensures
        !a.precedes(a),
        a.precedes(b) && b.precedes(c) ==> a.precedes(c),
        a.precedes(b) ==> !b.precedes(a),
        a.precedes(b) || b.precedes(a) || a.same_place(b),
{
}

} // verus!
