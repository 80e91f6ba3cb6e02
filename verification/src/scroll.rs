//! Which slice of a list is on screen, counted in whole items.

use vstd::prelude::*;
use std::ops::Range;

verus! {

/// Where the visible part of a list begins.
#[derive(Clone, Copy, Debug, PartialEq, Eq)]
pub struct ScrollOffset {
    /// Position of the first visible item.
    pub item_index: usize,
    /// How far into that item the view begins, in whole pixels.
    pub offset_in_item: u32,
}

/// Scroll position of a list of `item_count` items.
pub struct ScrollState {
    item_count: usize,
    visible_range: Range<usize>,
    scroll_offset: ScrollOffset,
    item_height: u32,
}

/// What a [`ScrollState`] holds.
pub struct ScrollView {
    /// Number of items in the list.
    pub item_count: nat,
    /// Position of the first visible item.
    pub first_visible: nat,
    /// How far into that item the view begins, in whole pixels.
    pub offset_in_item: u32,
    /// Where the visible part begins.
    pub visible_start: nat,
    /// Where the visible part ends; the item at this position is not in it.
    pub visible_end: nat,
    /// Height of one item in pixels.
    pub item_height: u32,
}

impl View for ScrollState {
    type V = ScrollView;

    closed spec fn view(&self) -> ScrollView {
        ScrollView {
            item_count: self.item_count as nat,
            first_visible: self.scroll_offset.item_index as nat,
            offset_in_item: self.scroll_offset.offset_in_item,
            visible_start: self.visible_range.start as nat,
            visible_end: self.visible_range.end as nat,
            item_height: self.item_height,
        }
    }
}

/// The first visible item after scrolling so that item `index` shows, with
/// room for `visible` items: the item is put in the middle, as far as the
/// ends of the list allow.
pub open spec fn revealing_offset(item_count: nat, index: nat, visible: nat) -> nat {
    let half = visible / 2;
    if index < half {
        0
    } else if index + half >= item_count {
        if item_count >= visible {
            (item_count - visible) as nat
        } else {
            0
        }
    } else {
        (index - half) as nat
    }
}

/// Where the visible part ends when it begins at `start` and has room for
/// `visible` items: it never runs past the end of the list.
pub open spec fn visible_end(item_count: nat, start: nat, visible: nat) -> nat {
    if start + visible <= item_count {
        start + visible
    } else {
        item_count
    }
}

/// The scroll position of a list of `item_count` items that shows from its
/// top and has not been told yet how many items fit.
pub open spec fn at_top(item_count: nat, item_height: u32) -> ScrollView {
    ScrollView {
        item_count,
        first_visible: 0,
        offset_in_item: 0,
        visible_start: 0,
        visible_end: 0,
        item_height,
    }
}

/// The scroll position after scrolling so that item `index` shows, with
/// room for `visible` items. An index outside the list changes nothing.
pub open spec fn revealing(view: ScrollView, index: nat, visible: nat) -> ScrollView {
    if index < view.item_count {
        let start = revealing_offset(view.item_count, index, visible);
        ScrollView {
            first_visible: start,
            offset_in_item: 0,
            visible_start: start,
            visible_end: visible_end(view.item_count, start, visible),
            ..view
        }
    } else {
        view
    }
}

/// After scrolling to an item, the item is inside the visible part,
/// provided there is room for at least one item.
pub proof fn lemma_revealed_item_is_visible(item_count: nat, index: nat, visible: nat)
    requires
        index < item_count,
        visible >= 1,
    ensures
        revealing_offset(item_count, index, visible) <= index,
        index < visible_end(item_count, revealing_offset(item_count, index, visible), visible),
{
}

impl ScrollState {
    /// The scroll state of an empty list whose items are `item_height` pixels high.
    pub fn new(item_height: u32) -> (state: Self)
        ensures
            state@ == at_top(0, item_height),
    {
        ScrollState {
            item_count: 0,
            visible_range: 0..0,
            scroll_offset: ScrollOffset { item_index: 0, offset_in_item: 0 },
            item_height,
        }
    }

    /// Tells the state how many items the list has now. A view that began
    /// past the new end is moved back onto the last item; with no items
    /// left it stays where it was.
    pub fn update_item_count(&mut self, count: usize)
        ensures
            final(self)@ == (ScrollView {
                item_count: count as nat,
                first_visible: if old(self)@.first_visible >= count && count > 0 {
                    (count - 1) as nat
                } else {
                    old(self)@.first_visible
                },
                ..old(self)@
            }),
    {
        self.item_count = count;
        if self.scroll_offset.item_index >= count && count > 0 {
            self.scroll_offset.item_index = count - 1;
        }
    }

    /// Scrolls so that item `index` shows, with room for `visible_items`
    /// items. An index outside the list changes nothing.
    pub fn scroll_to_reveal_item(&mut self, index: usize, visible_items: usize)
        ensures
            final(self)@ == revealing(old(self)@, index as nat, visible_items as nat),
    {
        if index >= self.item_count {
            return;
        }
        let half_visible: usize = visible_items / 2;
        let new_scroll_index: usize = if index < half_visible {
            0
        } else if half_visible >= self.item_count - index {
            self.item_count.saturating_sub(visible_items)
        } else {
            index - half_visible
        };
        self.scroll_offset = ScrollOffset { item_index: new_scroll_index, offset_in_item: 0 };
        self.update_visible_range(visible_items);
    }

    /// Sets the visible part to begin at the scroll position and to run on
    /// for `visible_items` items, or to the end of the list if that comes first.
    pub fn update_visible_range(&mut self, visible_items: usize)
        ensures
            final(self)@ == (ScrollView {
                visible_start: old(self)@.first_visible,
                visible_end: visible_end(
                    old(self)@.item_count,
                    old(self)@.first_visible,
                    visible_items as nat,
                ),
                ..old(self)@
            }),
    {
        let start: usize = self.scroll_offset.item_index;
        let end: usize = if start <= self.item_count && visible_items <= self.item_count - start {
            start + visible_items
        } else {
            self.item_count
        };
        self.visible_range = start..end;
    }

    /// The visible part: from its first item up to, not including, its end.
    pub fn visible_range(&self) -> (range: Range<usize>)
        ensures
            range.start == self@.visible_start,
            range.end == self@.visible_end,
    {
        self.visible_range.start..self.visible_range.end
    }

    /// Where the visible part begins.
    pub fn scroll_offset(&self) -> (offset: ScrollOffset)
        ensures
            offset.item_index == self@.first_visible,
            offset.offset_in_item == self@.offset_in_item,
    {
        self.scroll_offset
    }

    /// Height of one item in pixels, as given when the state was made.
    pub fn item_height(&self) -> (height: u32)
        ensures
            height == self@.item_height,
    {
        self.item_height
    }
}

} // verus!
