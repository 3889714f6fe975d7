use vstd::prelude::*;

use crate::geom::{len_max, len_min, max_len, min_len, Size, UNBOUNDED};

verus! {

/// The boundary that a parent gives to a child's layout: the child's size
/// lies between `min` and `max`, componentwise.
///
/// `min <= max` is expected but not enforced: `clamp` resolves an inverted
/// clamp by applying `min` first and `max` last.
#[derive(Debug, Clone, Copy, PartialEq, Eq, Structural)]
pub struct BoxClamp {
    pub min: Size,
    pub max: Size,
}

impl Default for BoxClamp {
    /// No constraint: from zero to infinite.
    fn default() -> (r: BoxClamp)
        ensures
            r == BoxClamp::unlimited_spec(),
    {
        BoxClamp::unlimited()
    }
}

impl BoxClamp {
    pub open spec fn unlimited_spec() -> BoxClamp {
        BoxClamp {
            min: Size { width: 0, height: 0 },
            max: Size { width: UNBOUNDED, height: UNBOUNDED },
        }
    }

    /// The minimum does not exceed the maximum in either axis.
    pub open spec fn wf(self) -> bool {
        self.min.le(self.max)
    }

    /// `size` lies within the clamp.
    pub open spec fn contains(self, size: Size) -> bool {
        self.min.le(size) && size.le(self.max)
    }

    /// No constraint: from zero to infinite.
    pub fn unlimited() -> (r: BoxClamp)
        ensures
            r == BoxClamp::unlimited_spec(),
    {
        BoxClamp { min: Size::zero(), max: Size::infinite() }
    }

    /// A fixed width and a free height.
    pub fn fixed_width(width: u32) -> (r: BoxClamp)
        ensures
            r.min == (Size { width, height: 0 }),
            r.max == (Size { width, height: UNBOUNDED }),
    {
        BoxClamp { min: Size::new(width, 0), max: Size::new(width, UNBOUNDED) }
    }

    /// A fixed height and a free width.
    pub fn fixed_height(height: u32) -> (r: BoxClamp)
        ensures
            r.min == (Size { width: 0, height }),
            r.max == (Size { width: UNBOUNDED, height }),
    {
        BoxClamp { min: Size::new(0, height), max: Size::new(UNBOUNDED, height) }
    }

    pub open spec fn fixed_size_spec(size: Size) -> BoxClamp {
        BoxClamp { min: size, max: size }
    }

    /// Exactly `size`.
    pub fn fixed_size(size: Size) -> (r: BoxClamp)
        ensures
            r == BoxClamp::fixed_size_spec(size),
    {
        BoxClamp { min: size, max: size }
    }

    /// At least `width` wide; otherwise unconstrained.
    pub fn min_width(width: u32) -> (r: BoxClamp)
        ensures
            r.min == (Size { width, height: 0 }),
            r.max == Size::infinite_spec(),
    {
        let mut clamp = BoxClamp::unlimited();
        clamp.min.width = width;
        clamp
    }

    /// At least `height` high; otherwise unconstrained.
    pub fn min_height(height: u32) -> (r: BoxClamp)
        ensures
            r.min == (Size { width: 0, height }),
            r.max == Size::infinite_spec(),
    {
        let mut clamp = BoxClamp::unlimited();
        clamp.min.height = height;
        clamp
    }

    /// At least `min`, with no upper bound.
    pub fn min_size(min: Size) -> (r: BoxClamp)
        ensures
            r.min == min,
            r.max == Size::infinite_spec(),
    {
        BoxClamp { min, max: Size::infinite() }
    }

    pub open spec fn max_size_spec(max: Size) -> BoxClamp {
        BoxClamp { min: Size::zero_spec(), max }
    }

    /// At most `max`, from zero.
    pub fn max_size(max: Size) -> (r: BoxClamp)
        ensures
            r == BoxClamp::max_size_spec(max),
    {
        BoxClamp { min: Size::zero(), max }
    }

    /// At most `height` high, from zero.
    pub fn max_height(height: u32) -> (r: BoxClamp)
        ensures
            r.min == Size::zero_spec(),
            r.max == (Size { width: UNBOUNDED, height }),
    {
        BoxClamp { min: Size::zero(), max: Size::new(UNBOUNDED, height) }
    }

    /// At most `width` wide, from zero.
    pub fn max_width(width: u32) -> (r: BoxClamp)
        ensures
            r.min == Size::zero_spec(),
            r.max == (Size { width, height: UNBOUNDED }),
    {
        BoxClamp { min: Size::zero(), max: Size::new(width, UNBOUNDED) }
    }

    /// Sets the minimum, cut down to the maximum.
    pub fn with_min_size(self, size: Size) -> (r: BoxClamp)
        ensures
            r.max == self.max,
            r.min.width == min_len(size.width, self.max.width),
            r.min.height == min_len(size.height, self.max.height),
    {
        BoxClamp {
            min: Size::new(
                len_min(size.width, self.max.width),
                len_min(size.height, self.max.height),
            ),
            max: self.max,
        }
    }

    /// Sets the maximum, raised to the minimum.
    pub fn with_max_size(self, size: Size) -> (r: BoxClamp)
        ensures
            r.min == self.min,
            r.max.width == max_len(size.width, self.min.width),
            r.max.height == max_len(size.height, self.min.height),
    {
        BoxClamp {
            min: self.min,
            max: Size::new(
                len_max(size.width, self.min.width),
                len_max(size.height, self.min.height),
            ),
        }
    }

    /// Pins the height; the width is kept.
    pub fn with_fixed_height(self, height: u32) -> (r: BoxClamp)
        ensures
            r.min == (Size { height, ..self.min }),
            r.max == (Size { height, ..self.max }),
    {
        let mut r = self;
        r.min.height = height;
        r.max.height = height;
        r
    }

    /// Pins the width; the height is kept.
    pub fn with_fixed_width(self, width: u32) -> (r: BoxClamp)
        ensures
            r.min == (Size { width, ..self.min }),
            r.max == (Size { width, ..self.max }),
    {
        let mut r = self;
        r.min.width = width;
        r.max.width = width;
        r
    }

    /// Sets the maximum width, raised to the minimum width.
    pub fn with_max_width(self, width: u32) -> (r: BoxClamp)
        ensures
            r.min == self.min,
            r.max == (Size { width: max_len(width, self.min.width), ..self.max }),
    {
        let mut r = self;
        r.max.width = len_max(width, self.min.width);
        r
    }

    /// Sets the maximum height, raised to the minimum height.
    pub fn with_max_height(self, height: u32) -> (r: BoxClamp)
        ensures
            r.min == self.min,
            r.max == (Size { height: max_len(height, self.min.height), ..self.max }),
    {
        let mut r = self;
        r.max.height = len_max(height, self.min.height);
        r
    }

    /// Sets the minimum width, cut down to the maximum width.
    pub fn with_min_width(self, width: u32) -> (r: BoxClamp)
        ensures
            r.max == self.max,
            r.min == (Size { width: min_len(width, self.max.width), ..self.min }),
    {
        let mut r = self;
        r.min.width = len_min(width, self.max.width);
        r
    }

    /// Sets the minimum height, cut down to the maximum height.
    pub fn with_min_height(self, height: u32) -> (r: BoxClamp)
        ensures
            r.max == self.max,
            r.min == (Size { height: min_len(height, self.max.height), ..self.min }),
    {
        let mut r = self;
        r.min.height = len_min(height, self.max.height);
        r
    }

    /// An estimate of the container's width while its own size is not known
    /// yet: the maximum where it is finite, else the child's width raised to
    /// the minimum. A hypothesis, which the final layout may override.
    pub fn container_width(&self, child_width: u32) -> (r: u32)
        ensures
            r == (if self.max.width != UNBOUNDED {
                self.max.width
            } else {
                max_len(self.min.width, child_width)
            }),
    {
        if self.max.width != UNBOUNDED {
            self.max.width
        } else {
            len_max(self.min.width, child_width)
        }
    }

    /// An estimate of the container's height while its own size is not known
    /// yet: the maximum where it is finite, else the child's height raised to
    /// the minimum. A hypothesis, which the final layout may override.
    pub fn container_height(&self, child_height: u32) -> (r: u32)
        ensures
            r == (if self.max.height != UNBOUNDED {
                self.max.height
            } else {
                max_len(self.min.height, child_height)
            }),
    {
        if self.max.height != UNBOUNDED {
            self.max.height
        } else {
            len_max(self.min.height, child_height)
        }
    }

    /// Restricts `size` to the clamp, componentwise.
    pub fn clamp(self, size: Size) -> (r: Size)
        ensures
            r == size.clamp_spec(self.min, self.max),
            r.le(self.max),
            self.wf() ==> self.contains(r),
            self.contains(size) ==> r == size,
    {
        size.clamp(self.min, self.max)
    }

    /// Lifts the maximum to infinite, keeping the minimum.
    pub fn expand(self) -> (r: BoxClamp)
        ensures
            r.min == self.min,
            r.max == Size::infinite_spec(),
    {
        let mut r = self;
        r.max = Size::infinite();
        r
    }

    /// Lowers the minimum to zero, keeping the maximum.
    pub fn loose(self) -> (r: BoxClamp)
        ensures
            r.min == Size::zero_spec(),
            r.max == self.max,
    {
        let mut r = self;
        r.min = Size::zero();
        r
    }

    /// Frees the width (zero to infinite), keeping the height's bounds.
    pub fn free_width(self) -> (r: BoxClamp)
        ensures
            r.min == (Size { width: 0, ..self.min }),
            r.max == (Size { width: UNBOUNDED, ..self.max }),
    {
        let mut r = self;
        r.min.width = 0;
        r.max.width = UNBOUNDED;
        r
    }

    /// Frees the height (zero to infinite), keeping the width's bounds.
    pub fn free_height(self) -> (r: BoxClamp)
        ensures
            r.min == (Size { height: 0, ..self.min }),
            r.max == (Size { height: UNBOUNDED, ..self.max }),
    {
        let mut r = self;
        r.min.height = 0;
        r.max.height = UNBOUNDED;
        r
    }
}

} // verus!
