use vstd::prelude::*;

use crate::geom::{len_add, len_max, len_min, max_len, min_len, sat_add, Point, Size};

verus! {

/// The main axis of a flex container: horizontal for a row, vertical for a
/// column.
#[derive(Debug, Clone, Copy, PartialEq, Eq, Structural)]
pub enum Direction {
    Horizontal,
    Vertical,
}

/// How children are placed along the cross axis.
#[derive(Debug, Clone, Copy, PartialEq, Eq, Structural)]
pub enum Align {
    Start,
    Center,
    End,
    /// Each child is stretched to the cross extent of its line.
    Stretch,
}

/// How children are placed along the main axis.
#[derive(Debug, Clone, Copy, PartialEq, Eq, Structural)]
pub enum JustifyContent {
    /// As close to the start of the main axis as possible.
    Start,
    /// As close to the middle of the main axis as possible.
    Center,
    /// As close to the end of the main axis as possible.
    End,
    /// The first child flush with the start, the last flush with the end, the
    /// same space between each pair.
    SpaceBetween,
    /// The same space between each pair, half of it before the first and
    /// after the last.
    SpaceAround,
    /// The same space between each pair, before the first and after the last.
    SpaceEvenly,
}

/// A row or column container that can wrap its children onto several lines
/// and share the free space of a line among its flexible children.
#[derive(Debug, Clone, Copy, PartialEq, Eq, Structural)]
pub struct Flex {
    /// Reverse the main axis.
    pub reverse: bool,
    /// Let the children wrap onto several lines.
    pub wrap: bool,
    /// The main axis.
    pub direction: Direction,
    /// How the children are placed along the cross axis.
    pub align_items: Align,
    /// How the children are placed along the main axis.
    pub justify_content: JustifyContent,
}

impl Flex {
    /// A row that starts its children at the start of both axes, on one line.
    pub fn new() -> (r: Flex)
        ensures
            !r.reverse,
            !r.wrap,
            r.direction == Direction::Horizontal,
            r.align_items == Align::Start,
            r.justify_content == JustifyContent::Start,
    {
        Flex {
            reverse: false,
            wrap: false,
            direction: Direction::Horizontal,
            align_items: Align::Start,
            justify_content: JustifyContent::Start,
        }
    }

    /// A row.
    pub fn row() -> (r: Flex)
        ensures
            r.direction == Direction::Horizontal,
            !r.reverse && !r.wrap,
            r.align_items == Align::Start && r.justify_content == JustifyContent::Start,
    {
        Flex::new()
    }

    /// A column.
    pub fn column() -> (r: Flex)
        ensures
            r.direction == Direction::Vertical,
            !r.reverse && !r.wrap,
            r.align_items == Align::Start && r.justify_content == JustifyContent::Start,
    {
        Flex { direction: Direction::Vertical, ..Flex::new() }
    }

    pub fn with_reverse(self, reverse: bool) -> (r: Flex)
        ensures
            r == (Flex { reverse, ..self }),
    {
        Flex { reverse, ..self }
    }

    pub fn with_wrap(self, wrap: bool) -> (r: Flex)
        ensures
            r == (Flex { wrap, ..self }),
    {
        Flex { wrap, ..self }
    }

    pub fn with_align_items(self, align_items: Align) -> (r: Flex)
        ensures
            r == (Flex { align_items, ..self }),
    {
        Flex { align_items, ..self }
    }

    pub fn with_justify_content(self, justify_content: JustifyContent) -> (r: Flex)
        ensures
            r == (Flex { justify_content, ..self }),
    {
        Flex { justify_content, ..self }
    }
}

/// A size seen along the axes of a flex container.
#[derive(Debug, Clone, Copy, PartialEq, Eq, Structural)]
pub struct FlexSize {
    pub main: u32,
    pub cross: u32,
}

/// A point seen along the axes of a flex container.
#[derive(Debug, Clone, Copy, PartialEq, Eq, Structural)]
pub struct FlexPoint {
    pub main: i64,
    pub cross: i64,
}

impl FlexSize {
    pub open spec fn from_size_spec(size: Size, dir: Direction) -> FlexSize {
        match dir {
            Direction::Horizontal => FlexSize { main: size.width, cross: size.height },
            Direction::Vertical => FlexSize { main: size.height, cross: size.width },
        }
    }

    pub open spec fn to_size_spec(self, dir: Direction) -> Size {
        match dir {
            Direction::Horizontal => Size { width: self.main, height: self.cross },
            Direction::Vertical => Size { width: self.cross, height: self.main },
        }
    }

    pub fn from_size(size: Size, dir: Direction) -> (r: FlexSize)
        ensures
            r == FlexSize::from_size_spec(size, dir),
            r.to_size_spec(dir) == size,
    {
        match dir {
            Direction::Horizontal => FlexSize { main: size.width, cross: size.height },
            Direction::Vertical => FlexSize { main: size.height, cross: size.width },
        }
    }

    pub fn to_size(self, dir: Direction) -> (r: Size)
        ensures
            r == self.to_size_spec(dir),
            FlexSize::from_size_spec(r, dir) == self,
    {
        match dir {
            Direction::Horizontal => Size { width: self.main, height: self.cross },
            Direction::Vertical => Size { width: self.cross, height: self.main },
        }
    }

    /// Componentwise `self.min(max).max(min)`.
    pub open spec fn clamp_spec(self, min: FlexSize, max: FlexSize) -> FlexSize {
        FlexSize {
            main: max_len(min_len(self.main, max.main), min.main),
            cross: max_len(min_len(self.cross, max.cross), min.cross),
        }
    }

    pub fn clamp(self, min: FlexSize, max: FlexSize) -> (r: FlexSize)
        ensures
            r == self.clamp_spec(min, max),
    {
        FlexSize {
            main: len_max(len_min(self.main, max.main), min.main),
            cross: len_max(len_min(self.cross, max.cross), min.cross),
        }
    }
}

impl FlexPoint {
    pub open spec fn to_point_spec(self, dir: Direction) -> Point {
        match dir {
            Direction::Horizontal => Point { x: self.main, y: self.cross },
            Direction::Vertical => Point { x: self.cross, y: self.main },
        }
    }

    pub fn to_point(self, dir: Direction) -> (r: Point)
        ensures
            r == self.to_point_spec(dir),
    {
        match dir {
            Direction::Horizontal => Point { x: self.main, y: self.cross },
            Direction::Vertical => Point { x: self.cross, y: self.main },
        }
    }
}

/// Truncating division by a positive divisor, as for machine integers.
pub open spec fn tdiv(v: int, k: int) -> int {
    if v >= 0 { v / k } else { -((-v) / k) }
}

/// A signed coordinate held within `i64`.
pub open spec fn coord(v: int) -> i64 {
    if v > i64::MAX { i64::MAX } else if v < i64::MIN { i64::MIN } else { v as i64 }
}

/// Truncating division of a difference of two lengths by a positive divisor.
fn div_diff(v: i64, k: i64) -> (r: i64)
    requires
        k > 0,
        -0x1_0000_0000 <= v <= 0x1_0000_0000,
    ensures
        r == tdiv(v as int, k as int),
        -0x1_0000_0000 <= r <= 0x1_0000_0000,
{
    if v >= 0 {
        v / k
    } else {
        -((-v) / k)
    }
}

/// `a + b` held within `i64`.
pub fn coord_add(a: i64, b: i64) -> (r: i64)
    ensures
        r == coord(a + b),
{
    if b >= 0 {
        if a > i64::MAX - b { i64::MAX } else { a + b }
    } else {
        if a < i64::MIN - b { i64::MIN } else { a + b }
    }
}

impl Align {
    /// The offset that places an item of extent `child` in a box of extent
    /// `container`: zero at the start, half the difference in the center, the
    /// whole difference at the end; a stretched item starts at zero.
    pub open spec fn align_value_spec(self, child: u32, container: u32) -> int {
        match self {
            Align::Start => 0,
            Align::Center => tdiv(container - child, 2),
            Align::End => container - child,
            Align::Stretch => 0,
        }
    }

    pub fn align_value(self, child: u32, container: u32) -> (r: i64)
        ensures
            r == self.align_value_spec(child, container),
    {
        let d: i64 = container as i64 - child as i64;
        match self {
            Align::Start => 0,
            Align::Center => div_diff(d, 2),
            Align::End => d,
            Align::Stretch => 0,
        }
    }
}

impl JustifyContent {
    /// The main-axis offset of the `j`-th of `n` items of a line of extent
    /// `line_main` in a container of extent `container_main`, beyond the
    /// extent of the items before it. With `d` the free space of the line:
    /// `0` at the start, `d / 2` in the center, `d` at the end; spaced
    /// between, `j * d / (n - 1)` (a line of one item starts at zero); spaced
    /// around, `(2j + 1) * d / 2n`; spaced evenly, `(j + 1) * d / (n + 1)`.
    /// Each offset is computed exactly and then truncated to a whole pixel.
    pub open spec fn offset_spec(self, container_main: u32, line_main: u32, n: nat, j: nat) -> int {
        let d = container_main - line_main;
        match self {
            JustifyContent::Start => 0,
            JustifyContent::Center => tdiv(d, 2),
            JustifyContent::End => d,
            JustifyContent::SpaceBetween => if n <= 1 {
                0
            } else {
                tdiv(j * d, n - 1)
            },
            JustifyContent::SpaceAround => if n == 0 {
                0
            } else {
                tdiv((2 * j + 1) * d, 2 * (n as int))
            },
            JustifyContent::SpaceEvenly => tdiv((j + 1) * d, n as int + 1),
        }
    }

    pub fn offset(self, container_main: u32, line_main: u32, n: usize, j: usize) -> (r: i64)
        requires
            j < n,
        ensures
            r == coord(self.offset_spec(container_main, line_main, n as nat, j as nat)),
    {
        let d: i128 = container_main as i128 - line_main as i128;
        let jj: i128 = j as i128;
        let nn: i128 = n as i128;
        proof {
            assert(-0x1_0000_0000 * 0x1_0000_0000_0000_0000 <= jj * d <= 0x1_0000_0000
                * 0x1_0000_0000_0000_0000) by (nonlinear_arith)
                requires
                    -0x1_0000_0000 <= d <= 0x1_0000_0000,
                    0 <= jj <= 0x1_0000_0000_0000_0000,
            ;
            assert(-0x1_0000_0000 * 0x3_0000_0000_0000_0000 <= (2 * jj + 1) * d <= 0x1_0000_0000
                * 0x3_0000_0000_0000_0000) by (nonlinear_arith)
                requires
                    -0x1_0000_0000 <= d <= 0x1_0000_0000,
                    0 <= jj <= 0x1_0000_0000_0000_0000,
            ;
            assert(-0x1_0000_0000 * 0x2_0000_0000_0000_0000 <= (jj + 1) * d <= 0x1_0000_0000
                * 0x2_0000_0000_0000_0000) by (nonlinear_arith)
                requires
                    -0x1_0000_0000 <= d <= 0x1_0000_0000,
                    0 <= jj <= 0x1_0000_0000_0000_0000,
            ;
        }
        let q: i128 = match self {
            JustifyContent::Start => 0,
            JustifyContent::Center => tdiv_exec(d, 2),
            JustifyContent::End => d,
            JustifyContent::SpaceBetween => if n <= 1 {
                0
            } else {
                tdiv_exec(jj * d, nn - 1)
            },
            JustifyContent::SpaceAround => tdiv_exec((2 * jj + 1) * d, 2 * nn),
            JustifyContent::SpaceEvenly => tdiv_exec((jj + 1) * d, nn + 1),
        };
        if q > i64::MAX as i128 {
            i64::MAX
        } else if q < i64::MIN as i128 {
            i64::MIN
        } else {
            q as i64
        }
    }
}

/// Truncating division by a positive divisor.
fn tdiv_exec(v: i128, k: i128) -> (r: i128)
    requires
        k > 0,
        v > i128::MIN,
    ensures
        r == tdiv(v as int, k as int),
{
    proof {
        if v >= 0 {
            assert(0 <= (v as int) / (k as int) <= v) by (nonlinear_arith)
                requires
                    v >= 0,
                    k > 0,
            ;
        } else {
            let w = -(v as int);
            assert(0 <= w / (k as int) <= w) by (nonlinear_arith)
                requires
                    w >= 0,
                    k > 0,
            ;
        }
    }
    if v >= 0 {
        v / k
    } else {
        -((-v) / k)
    }
}

/// What a line of a flex container holds after the greedy placement.
#[derive(Debug, Clone, Copy, PartialEq, Eq, Structural)]
pub struct MainLineInfo {
    /// How many children the line holds.
    pub child_count: usize,
    /// Where the line starts on the cross axis.
    pub cross_pos: u32,
    /// The main extent of its children together.
    pub main_width: u32,
    /// The sum of the flex factors of its flexible children.
    pub flex_sum: u64,
    /// The main extent of its flexible children together.
    pub flex_main_width: u32,
    /// The largest cross extent of its children.
    pub cross_line_height: u32,
}

impl MainLineInfo {
    pub open spec fn starting_at_spec(cross_pos: u32) -> MainLineInfo {
        MainLineInfo {
            child_count: 0,
            cross_pos,
            main_width: 0,
            flex_sum: 0,
            flex_main_width: 0,
            cross_line_height: 0,
        }
    }

    /// An empty line that starts at `cross_pos`.
    pub fn starting_at(cross_pos: u32) -> (r: MainLineInfo)
        ensures
            r == MainLineInfo::starting_at_spec(cross_pos),
    {
        MainLineInfo {
            child_count: 0,
            cross_pos,
            main_width: 0,
            flex_sum: 0,
            flex_main_width: 0,
            cross_line_height: 0,
        }
    }

    /// A line that holds no child.
    pub open spec fn is_empty_spec(self) -> bool {
        self.child_count == 0
    }

    pub fn is_empty(&self) -> (r: bool)
        ensures
            r == self.is_empty_spec(),
    {
        self.child_count == 0
    }

    pub open spec fn cross_bottom_spec(self) -> u32 {
        sat_add(self.cross_pos, self.cross_line_height)
    }

    /// Where the line ends on the cross axis.
    pub fn cross_bottom(&self) -> (r: u32)
        ensures
            r == self.cross_bottom_spec(),
    {
        len_add(self.cross_pos, self.cross_line_height)
    }

    /// The line after a child of size `size`, with flex factor `flex` if it
    /// is flexible, was placed at its end.
    pub open spec fn place_spec(self, size: FlexSize, flex: Option<u32>) -> MainLineInfo {
        MainLineInfo {
            child_count: (self.child_count + 1) as usize,
            main_width: sat_add(self.main_width, size.main),
            cross_line_height: max_len(self.cross_line_height, size.cross),
            flex_sum: match flex {
                Some(f) => if self.flex_sum + f > u64::MAX {
                    u64::MAX
                } else {
                    (self.flex_sum + f) as u64
                },
                None => self.flex_sum,
            },
            flex_main_width: match flex {
                Some(_) => sat_add(self.flex_main_width, size.main),
                None => self.flex_main_width,
            },
            ..self
        }
    }

    pub fn place(&mut self, size: FlexSize, flex: Option<u32>)
        requires
            old(self).child_count < usize::MAX,
        ensures
            *final(self) == old(self).place_spec(size, flex),
    {
        self.child_count = self.child_count + 1;
        self.main_width = len_add(self.main_width, size.main);
        self.cross_line_height = len_max(self.cross_line_height, size.cross);
        match flex {
            Some(f) => {
                self.flex_sum = self.flex_sum.saturating_add(f as u64);
                self.flex_main_width = len_add(self.flex_main_width, size.main);
            },
            None => {},
        }
    }
}

/// Whether a child of main extent `child_main` opens a new line: only where
/// wrapping is on, the current line is not empty, and the child would carry
/// the line past the container's main maximum.
pub open spec fn breaks_line_spec(wrap: bool, line: MainLineInfo, child_main: u32, max_main: u32) -> bool {
    wrap && !line.is_empty_spec() && line.main_width + child_main > max_main
}

pub fn breaks_line(wrap: bool, line: &MainLineInfo, child_main: u32, max_main: u32) -> (r: bool)
    ensures
        r == breaks_line_spec(wrap, *line, child_main, max_main),
{
    wrap && !line.is_empty() && line.main_width as u64 + child_main as u64 > max_main as u64
}

/// The main extent that a flexible child asks for: its share
/// `remain * flex / flex_sum` of the space that the line leaves free, never
/// less than its own extent. With no flex factor in the line, the child keeps
/// its extent.
pub open spec fn flex_share_spec(remain: int, flex: u32, flex_sum: u64, pre_main: u32) -> u32 {
    if flex_sum == 0 {
        pre_main
    } else {
        let share = if remain <= 0 { 0 } else { remain * flex / (flex_sum as int) };
        max_len(pre_main, if share >= 0xffff_ffff { 0xffff_ffff } else { share as u32 })
    }
}

pub fn flex_share(remain: i64, flex: u32, flex_sum: u64, pre_main: u32) -> (r: u32)
    requires
        -0x2_0000_0000 <= remain <= 0x2_0000_0000,
    ensures
        r == flex_share_spec(remain as int, flex, flex_sum, pre_main),
{
    if flex_sum == 0 {
        pre_main
    } else {
        let share: u128 = if remain <= 0 {
            0
        } else {
            proof {
                assert(0 <= remain * flex <= 0x2_0000_0000 * 0xffff_ffff) by (nonlinear_arith)
                    requires
                        0 <= remain <= 0x2_0000_0000,
                        0 <= flex <= 0xffff_ffff,
                ;
            }
            (remain as u128 * flex as u128) / flex_sum as u128
        };
        let share_len: u32 = if share >= 0xffff_ffff { 0xffff_ffff } else { share as u32 };
        len_max(pre_main, share_len)
    }
}

} // verus!
