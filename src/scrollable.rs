use vstd::prelude::*;

use crate::flex::{coord, coord_add};
use crate::geom::{Point, Size};

verus! {

/// The directions in which a widget may scroll.
#[derive(Debug, Clone, Copy, PartialEq, Eq, Structural)]
pub enum Scrollable {
    /// Horizontally.
    X,
    /// Vertically.
    Y,
    /// Both ways.
    Both,
}

/// The state of a scroll view: which way it scrolls, where its content is
/// placed, and the sizes of the view and of the content, which the layout
/// reports.
pub struct ScrollableWidget {
    pub scrollable: Scrollable,
    /// The offset of the content in the view; never positive.
    pub pos: Point,
    /// The size of the view.
    pub page: Size,
    /// The size of the content.
    pub content_size: Size,
}

/// `v` held within `lo ..= hi`, the upper bound winning.
pub open spec fn clamp_coord(v: int, lo: int, hi: int) -> int {
    let a = if v >= lo { v } else { lo };
    if a <= hi { a } else { hi }
}

impl ScrollableWidget {
    /// A view that scrolls as `scrollable` says, at the origin, with nothing
    /// measured yet.
    pub fn new(scrollable: Scrollable) -> (r: ScrollableWidget)
        ensures
            r.scrollable == scrollable,
            r.pos == Point::zero_spec(),
            r.page == Size::zero_spec(),
            r.content_size == Size::zero_spec(),
    {
        ScrollableWidget {
            scrollable,
            pos: Point::zero(),
            page: Size::zero(),
            content_size: Size::zero(),
        }
    }

    /// The size of the view.
    pub fn page_size(&self) -> (r: Size)
        ensures
            r == self.page,
    {
        self.page
    }

    /// The size of the content.
    pub fn content_size(&self) -> (r: Size)
        ensures
            r == self.content_size,
    {
        self.content_size
    }

    /// Records the size that the layout gave the view.
    pub fn set_page_size(&mut self, page: Size)
        ensures
            final(self).page == page,
            final(self).content_size == old(self).content_size,
            final(self).pos == old(self).pos,
            final(self).scrollable == old(self).scrollable,
    {
        self.page = page;
    }

    /// Records the size that the layout gave the content.
    pub fn set_content_size(&mut self, content: Size)
        ensures
            final(self).content_size == content,
            final(self).page == old(self).page,
            final(self).pos == old(self).pos,
            final(self).scrollable == old(self).scrollable,
    {
        self.content_size = content;
    }

    pub open spec fn can_scroll_spec(&self) -> bool {
        match self.scrollable {
            Scrollable::X => self.content_size.width > self.page.width,
            Scrollable::Y => self.content_size.height > self.page.height,
            Scrollable::Both => self.content_size.width > self.page.width
                || self.content_size.height > self.page.height,
        }
    }

    /// Whether the content exceeds the view in a direction it scrolls.
    pub fn can_scroll(&self) -> (r: bool)
        ensures
            r == self.can_scroll_spec(),
    {
        match self.scrollable {
            Scrollable::X => self.content_size.width > self.page.width,
            Scrollable::Y => self.content_size.height > self.page.height,
            Scrollable::Both => self.content_size.width > self.page.width
                || self.content_size.height > self.page.height,
        }
    }

    /// Scrolls by `delta` in the directions the view scrolls, and keeps the
    /// content covering the view: each coordinate stays between
    /// `page - content` and zero, the zero bound winning where the content is
    /// smaller than the view.
    pub fn validate_scroll(&mut self, delta: Point)
        ensures
            final(self).scrollable == old(self).scrollable,
            final(self).page == old(self).page,
            final(self).content_size == old(self).content_size,
            final(self).pos.x == clamp_coord(
                if old(self).scrollable != Scrollable::Y {
                    coord(old(self).pos.x + delta.x) as int
                } else {
                    old(self).pos.x as int
                },
                old(self).page.width - old(self).content_size.width,
                0,
            ),
            final(self).pos.y == clamp_coord(
                if old(self).scrollable != Scrollable::X {
                    coord(old(self).pos.y + delta.y) as int
                } else {
                    old(self).pos.y as int
                },
                old(self).page.height - old(self).content_size.height,
                0,
            ),
    {
        let mut new = self.pos;
        if self.scrollable != Scrollable::X {
            new.y = coord_add(new.y, delta.y);
        }
        if self.scrollable != Scrollable::Y {
            new.x = coord_add(new.x, delta.x);
        }
        let min_x: i64 = self.page.width as i64 - self.content_size.width as i64;
        let min_y: i64 = self.page.height as i64 - self.content_size.height as i64;
        let x: i64 = if new.x >= min_x { new.x } else { min_x };
        let y: i64 = if new.y >= min_y { new.y } else { min_y };
        self.pos = Point { x: if x <= 0 { x } else { 0 }, y: if y <= 0 { y } else { 0 } };
    }
}

} // verus!
