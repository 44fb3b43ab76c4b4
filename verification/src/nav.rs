//! Storage for the cursor's position inside a node tree.
//!
//! A [NavPath] lists the indices taken from the root of an unstructured node tree down to the
//! cursor. Indexes alternate between an index into a node list and the index of a "slot" of the
//! node found there (for example 0 for the top of a fraction and 1 for its bottom). The final
//! index is always an index into a node list, where `len()` means "after the last item".

use vstd::prelude::*;

use crate::node::unstructured::layout::spec_node_layout;
use crate::node::unstructured::{ListModel, UnstructuredNodeList};
use crate::render::{wadd, LayoutComputationProperties, Layoutable, Renderer, SizeFn};

verus! {

/// Describes the movements which must be taken down a node tree to reach the cursor.
#[derive(PartialEq, Eq, Debug, Clone)]
pub struct NavPath {
    path: Vec<usize>,
}

impl View for NavPath {
    type V = Seq<usize>;

    closed spec fn view(&self) -> Seq<usize> {
        self.path@
    }
}

impl NavPath {
    pub fn new(path: Vec<usize>) -> (r: Self)
        ensures
            r@ == path@,
    {
        Self { path }
    }

    /// A copy of this path.
    pub fn copy(&self) -> (r: Self)
        ensures
            r@ == self@,
    {
        let mut path: Vec<usize> = Vec::new();
        let mut i: usize = 0;
        while i < self.path.len()
            invariant
                i <= self.path@.len(),
                path@ =~= self.path@.take(i as int),
            decreases self.path@.len() - i,
        {
            path.push(self.path[i]);
            i = i + 1;
        }
        proof {
            assert(self.path@.take(i as int) =~= self.path@);
        }
        NavPath { path }
    }

    /// Returns a navigator positioned at the start of this path.
    pub fn to_navigator(&self) -> (r: NavPathNavigator<'_>)
        ensures
            r.path@ == self@,
            r.index == 0,
    {
        NavPathNavigator { path: self, index: 0 }
    }

    /// Returns true if the entire path only has one item.
    pub fn root(&self) -> (r: bool)
        ensures
            r == (self@.len() == 1),
    {
        self.path.len() == 1
    }

    /// Removes n entries from the end of this path (fewer if the path is shorter).
    pub fn pop(&mut self, n: usize)
        ensures
            final(self)@ == old(self)@.take(
                if n <= old(self)@.len() { old(self)@.len() - n } else { 0 },
            ),
    {
        let mut i: usize = 0;
        while i < n
            invariant
                i <= n,
                self@ == old(self)@.take(
                    if i <= old(self)@.len() { old(self)@.len() - i } else { 0 },
                ),
            decreases n - i,
        {
            self.path.pop();
            i = i + 1;
        }
    }

    /// Adds an index to the end of this path.
    pub fn push(&mut self, index: usize)
        ensures
            final(self)@ == old(self)@.push(index),
    {
        self.path.push(index);
    }

    /// Adds n to the final entry of this path.
    ///
    /// The addition is carried out modulo the machine word, like the `as` conversions between
    /// signed and unsigned words that it stands for.
    pub fn offset(&mut self, n: isize)
        requires
            old(self)@.len() > 0,
        ensures
            final(self)@.len() == old(self)@.len(),
            final(self)@.drop_last() == old(self)@.drop_last(),
            final(self)@.last() == vstd::wrapping::usize_specs::wrapping_add_signed(old(self)@.last(), n),
            0 <= old(self)@.last() + n <= usize::MAX ==> final(self)@.last() == old(self)@.last() + n,
    {
        let last_index = self.path.len() - 1;
        let last = self.path[last_index];
        let new_value: usize = last.wrapping_add_signed(n);
        self.path.set(last_index, new_value);
        proof {
            assert(final(self)@.drop_last() =~= old(self)@.drop_last());
        }
    }

    /// Gets the length of this path.
    pub fn len(&self) -> (r: usize)
        ensures
            r == self@.len(),
    {
        self.path.len()
    }

    /// Gets the entry at the given position of this path.
    pub fn get(&self, index: usize) -> (r: usize)
        requires
            index < self@.len(),
        ensures
            r == self@[index as int],
    {
        self.path[index]
    }
}

/// Provides utilities for stepping through a path, one index at a time.
pub struct NavPathNavigator<'a> {
    pub path: &'a NavPath,
    pub index: usize,
}

impl<'a> NavPathNavigator<'a> {
    /// The part of the path which has not been stepped over yet.
    pub open spec fn rest(&self) -> Seq<usize> {
        self.path@.skip(self.index as int)
    }

    /// The next index in the path.
    pub fn next(&self) -> (r: usize)
        requires
            self.index < self.path@.len(),
        ensures
            r == self.path@[self.index as int],
    {
        self.path.get(self.index)
    }

    /// Returns true if there is only one index left in the path; in other words, the cursor must
    /// be in this node.
    pub fn here(&self) -> (r: bool)
        requires
            self.path@.len() > 0,
        ensures
            r == (self.index == self.path@.len() - 1),
    {
        self.index == self.path.len() - 1
    }

    /// Returns a navigator with the first remaining index stepped over, making the path relative
    /// to one node deeper into the tree.
    pub fn step(&self) -> (r: NavPathNavigator<'a>)
        requires
            self.index < self.path@.len(),
        ensures
            r.path == self.path,
            r.index == self.index + 1,
    {
        let _len = self.path.len();
        NavPathNavigator { index: self.index + 1, path: self.path }
    }

    /// Returns the result of `step`, if `next` returns the given value.
    pub fn step_if_next(&self, required_next: usize) -> (r: Option<NavPathNavigator<'a>>)
        requires
            self.index < self.path@.len(),
        ensures
            self.path@[self.index as int] == required_next <==> r.is_some(),
            r matches Some(n) ==> n.path == self.path && n.index == self.index + 1,
    {
        if self.next() == required_next {
            Some(self.step())
        } else {
            None
        }
    }
}

/// The width of the layout of each node of a list, each laid out on its own.
pub open spec fn node_widths(sz: SizeFn, l: ListModel) -> Seq<u64> {
    Seq::new(l.items.len(), |i: int| spec_node_layout(sz, l.items[i], None, None, 0).area.width)
}

/// The sum of some widths, wrapping at the word size.
pub open spec fn total_width(ws: Seq<u64>) -> u64
    decreases ws.len(),
{
    if ws.len() == 0 {
        0
    } else {
        wadd(total_width(ws.drop_last()), ws.last())
    }
}

/// The points between items of the given widths, starting at `start`: one more than there are
/// widths.
pub open spec fn boundary_points(ws: Seq<u64>, start: u64) -> Seq<u64>
    decreases ws.len(),
{
    if ws.len() == 0 {
        seq![start]
    } else {
        let previous = boundary_points(ws.drop_last(), start);
        previous.push(wadd(previous.last(), ws.last()))
    }
}

/// The distance between two points, in signed word arithmetic.
pub open spec fn point_distance(a: u64, b: u64) -> i64 {
    let d = vstd::wrapping::i64_specs::wrapping_sub(a as i64, b as i64);
    if d < 0 {
        vstd::wrapping::i64_specs::wrapping_sub(0, d)
    } else {
        d
    }
}

/// The index of the first of the first `n` points which is closest to `x`.
pub open spec fn closest_point(points: Seq<u64>, x: u64, n: int) -> int
    decreases n,
{
    if n <= 1 {
        0
    } else {
        let c = closest_point(points, x, n - 1);
        if point_distance(points[n - 1], x) < point_distance(points[c], x) {
            n - 1
        } else {
            c
        }
    }
}

/// For each cursor position of the list moved from, the closest cursor position of the list moved
/// to, when the two are centred on each other.
pub open spec fn spec_match_points(sz: SizeFn, top: ListModel, bottom: ListModel, direction: MoveVerticalDirection) -> Seq<usize> {
    let (from, to) = match direction {
        MoveVerticalDirection::Up => (bottom, top),
        MoveVerticalDirection::Down => (top, bottom),
    };
    let from_total = total_width(node_widths(sz, from));
    let to_total = total_width(node_widths(sz, to));
    let (from_offset, to_offset) = if from_total < to_total {
        (((to_total - from_total) / 2) as u64, 0u64)
    } else if from_total > to_total {
        (0u64, ((from_total - to_total) / 2) as u64)
    } else {
        (0u64, 0u64)
    };
    let from_points = boundary_points(node_widths(sz, from), from_offset);
    let to_points = boundary_points(node_widths(sz, to), to_offset);
    Seq::new(from_points.len(), |k: int| closest_point(to_points, from_points[k], to_points.len() as int) as usize)
}

/// There is one boundary point more than there are widths.
proof fn lemma_boundary_points_len(ws: Seq<u64>, start: u64)
    ensures
        boundary_points(ws, start).len() == ws.len() + 1,
    decreases ws.len(),
{
    if ws.len() > 0 {
        lemma_boundary_points_len(ws.drop_last(), start);
    }
}

/// The closest of the first `n` points is one of them.
proof fn lemma_closest_point(points: Seq<u64>, x: u64, n: int)
    requires
        1 <= n,
    ensures
        0 <= closest_point(points, x, n) < n,
    decreases n,
{
    if n > 1 {
        lemma_closest_point(points, x, n - 1);
    }
}

/// Each cursor position of the list moved from is matched to a cursor position of the list moved
/// to.
pub proof fn lemma_match_points(sz: SizeFn, top: ListModel, bottom: ListModel, direction: MoveVerticalDirection)
    ensures
        ({
            let (from, to) = match direction {
                MoveVerticalDirection::Up => (bottom, top),
                MoveVerticalDirection::Down => (top, bottom),
            };
            let m = spec_match_points(sz, top, bottom, direction);
            &&& m.len() == from.items.len() + 1
            &&& forall|k: int| 0 <= k < m.len() ==> #[trigger] m[k] <= to.items.len()
        }),
{
    let (from, to) = match direction {
        MoveVerticalDirection::Up => (bottom, top),
        MoveVerticalDirection::Down => (top, bottom),
    };
    let from_total = total_width(node_widths(sz, from));
    let to_total = total_width(node_widths(sz, to));
    let (from_offset, to_offset) = if from_total < to_total {
        (((to_total - from_total) / 2) as u64, 0u64)
    } else if from_total > to_total {
        (0u64, ((from_total - to_total) / 2) as u64)
    } else {
        (0u64, 0u64)
    };
    let from_points = boundary_points(node_widths(sz, from), from_offset);
    let to_points = boundary_points(node_widths(sz, to), to_offset);
    lemma_boundary_points_len(node_widths(sz, from), from_offset);
    lemma_boundary_points_len(node_widths(sz, to), to_offset);
    let m = spec_match_points(sz, top, bottom, direction);
    assert forall|k: int| 0 <= k < m.len() implies #[trigger] m[k] <= to.items.len() by {
        lemma_closest_point(to_points, from_points[k], to_points.len() as int);
    }
}

/// The widths of the nodes of a list, each laid out on its own.
fn widths<R: Renderer>(renderer: &mut R, l: &UnstructuredNodeList) -> (r: Vec<u64>)
    ensures
        r@ == node_widths(old(renderer).sizes(), l@),
        final(renderer).sizes() == old(renderer).sizes(),
{
    let ghost sz = renderer.sizes();
    let mut r: Vec<u64> = Vec::new();
    let mut i: usize = 0;
    while i < l.items.len()
        invariant
            i <= l.items@.len(),
            renderer.sizes() == sz,
            r@ =~= node_widths(sz, l@).take(i as int),
        decreases l.items@.len() - i,
    {
        assert(l@.items[i as int] == l.items@[i as int]@);
        let layout = l.items[i].layout(renderer, None, LayoutComputationProperties::default());
        r.push(layout.area.width);
        i = i + 1;
    }
    assert(node_widths(sz, l@).take(i as int) =~= node_widths(sz, l@));
    r
}

/// The sum of some widths.
fn sum_widths(ws: &Vec<u64>) -> (r: u64)
    ensures
        r == total_width(ws@),
{
    let mut total: u64 = 0;
    let mut i: usize = 0;
    while i < ws.len()
        invariant
            i <= ws@.len(),
            total == total_width(ws@.take(i as int)),
        decreases ws@.len() - i,
    {
        total = total.wrapping_add(ws[i]);
        assert(ws@.take(i + 1).drop_last() =~= ws@.take(i as int));
        i = i + 1;
    }
    assert(ws@.take(i as int) =~= ws@);
    total
}

/// The boundaries between items of the given widths.
fn boundaries(ws: &Vec<u64>, start: u64) -> (r: Vec<u64>)
    ensures
        r@ == boundary_points(ws@, start),
{
    let mut r: Vec<u64> = Vec::new();
    r.push(start);
    let mut i: usize = 0;
    assert(r@ =~= boundary_points(ws@.take(0), start));
    while i < ws.len()
        invariant
            i <= ws@.len(),
            r@ == boundary_points(ws@.take(i as int), start),
            r@.len() == i + 1,
        decreases ws@.len() - i,
    {
        let last = r[r.len() - 1];
        r.push(last.wrapping_add(ws[i]));
        assert(ws@.take(i + 1).drop_last() =~= ws@.take(i as int));
        i = i + 1;
    }
    assert(ws@.take(i as int) =~= ws@);
    r
}

/// The distance between two points.
fn distance(a: u64, b: u64) -> (r: i64)
    ensures
        r == point_distance(a, b),
{
    let d = (a as i64).wrapping_sub(b as i64);
    if d < 0 {
        0i64.wrapping_sub(d)
    } else {
        d
    }
}

/// Given two unstructured nodes which are vertically centre-aligned, and a direction in which
/// the cursor is moving, returns a vec of positions `v` such that moving the cursor from
/// position `i` in that direction should put the cursor in position `v[i]` of the other
/// unstructured node.
pub fn match_vertical_cursor_points<R: Renderer>(
    renderer: &mut R,
    top: &UnstructuredNodeList,
    bottom: &UnstructuredNodeList,
    direction: MoveVerticalDirection,
) -> (r: Vec<usize>)
    ensures
        r@ == spec_match_points(old(renderer).sizes(), top@, bottom@, direction),
        final(renderer).sizes() == old(renderer).sizes(),
{
    let ghost sz = renderer.sizes();
    let (from_node, to_node) = match direction {
        MoveVerticalDirection::Up => (bottom, top),
        MoveVerticalDirection::Down => (top, bottom),
    };
    let from_widths = widths(renderer, from_node);
    let to_widths = widths(renderer, to_node);
    let from_total = sum_widths(&from_widths);
    let to_total = sum_widths(&to_widths);
    // Offsets which centre the two on each other
    let (from_offset, to_offset) = if from_total < to_total {
        ((to_total - from_total) / 2, 0)
    } else if from_total > to_total {
        (0, (from_total - to_total) / 2)
    } else {
        (0, 0)
    };
    let from_points = boundaries(&from_widths, from_offset);
    let to_points = boundaries(&to_widths, to_offset);
    let ghost spec_points = spec_match_points(sz, top@, bottom@, direction);
    // For each point moved from, find the closest point moved to
    let mut result: Vec<usize> = Vec::new();
    let mut k: usize = 0;
    while k < from_points.len()
        invariant
            k <= from_points@.len(),
            to_points@.len() > 0,
            spec_points.len() == from_points@.len(),
            forall|j: int| 0 <= j < from_points@.len() ==> spec_points[j] == closest_point(to_points@, from_points@[j], to_points@.len() as int) as usize,
            result@ =~= spec_points.take(k as int),
        decreases from_points@.len() - k,
    {
        let from_point = from_points[k];
        let mut closest: usize = 0;
        let mut i: usize = 0;
        while i < to_points.len()
            invariant
                i <= to_points@.len(),
                to_points@.len() > 0,
                i > 0 ==> closest == closest_point(to_points@, from_point, i as int),
                i == 0 ==> closest == 0,
                closest < to_points@.len(),
            decreases to_points@.len() - i,
        {
            if distance(to_points[i], from_point) < distance(to_points[closest], from_point) {
                closest = i;
            }
            i = i + 1;
        }
        result.push(closest);
        k = k + 1;
    }
    result
}

/// A direction of vertical cursor movement.
#[derive(PartialEq, Eq, Debug, Clone, Copy)]
pub enum MoveVerticalDirection {
    Up,
    Down,
}

} // verus!
