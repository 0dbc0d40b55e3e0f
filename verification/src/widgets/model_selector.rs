use vstd::prelude::*;

verus! {

/// The selection after moving up: one up, or from the top to the last of `max` items.
pub open spec fn selection_up(sel: usize, max: usize) -> usize {
    if sel > 0 {
        (sel - 1) as usize
    } else if max > 0 {
        (max - 1) as usize
    } else {
        sel
    }
}

/// The selection after moving down: one down, or from the last of `max` items to the top.
pub open spec fn selection_down(sel: usize, max: usize) -> usize {
    if max == 0 {
        sel
    } else if sel < max - 1 {
        (sel + 1) as usize
    } else {
        0
    }
}

/// The scroll offset that keeps the selection `sel` visible in `height` rows, scrolled at
/// `off` before: up to the selection when it is above, just enough when it is below.
pub open spec fn scrolled_offset(sel: usize, off: usize, height: usize) -> usize {
    if sel < off {
        sel
    } else if sel >= off + height {
        (sel - (height - 1)) as usize
    } else {
        off
    }
}

/// Moving down and then up comes back to the same item, and so does moving up and then down.
pub proof fn lemma_selection_up_down(sel: usize, max: usize)
    requires
        sel < max,
    ensures
        selection_up(selection_down(sel, max), max) == sel,
        selection_down(selection_up(sel, max), max) == sel,
{
}

/// After scrolling, the selection is on screen: at or below the first visible row and
/// above the last.
pub proof fn lemma_selection_visible(sel: usize, off: usize, height: usize)
    requires
        height > 0,
    ensures
        scrolled_offset(sel, off, height) <= sel < scrolled_offset(sel, off, height) + height,
{
}

/// Selection and scroll position of a list of models.
#[derive(Debug, Clone, Copy)]
pub struct ModelSelectorState {
    /// The currently selected index.
    pub selected: usize,
    /// Index of the first visible item.
    pub offset: usize,
}

impl ModelSelectorState {
    /// Selection and scroll at the top.
    pub fn new() -> (s: Self)
        ensures
            s.selected == 0,
            s.offset == 0,
    {
        ModelSelectorState { selected: 0, offset: 0 }
    }

    /// The currently selected index.
    pub fn selected(&self) -> (i: usize)
        ensures
            i == self.selected,
    {
        self.selected
    }

    /// Selects `index`.
    pub fn select(&mut self, index: usize)
        ensures
            final(self).selected == index,
            final(self).offset == old(self).offset,
    {
        self.selected = index;
    }

    /// Moves the selection up; from the top it wraps to the last of `max` items.
    pub fn move_up(&mut self, max: usize)
        ensures
            final(self).offset == old(self).offset,
            final(self).selected == selection_up(old(self).selected, max),
    {
        if self.selected > 0 {
            self.selected -= 1;
        } else if max > 0 {
            self.selected = max - 1;
        }
    }

    /// Moves the selection down; from the last of `max` items it wraps to the top.
    pub fn move_down(&mut self, max: usize)
        ensures
            final(self).offset == old(self).offset,
            final(self).selected == selection_down(old(self).selected, max),
    {
        if max > 0 {
            if self.selected < max - 1 {
                self.selected += 1;
            } else {
                self.selected = 0;
            }
        }
    }

    /// Selection and scroll back at the top.
    pub fn reset(&mut self)
        ensures
            final(self).selected == 0,
            final(self).offset == 0,
    {
        self.selected = 0;
        self.offset = 0;
    }

    /// Scrolls so that the selection is visible in a viewport of `viewport_height` rows.
    pub fn update_offset(&mut self, viewport_height: usize)
        requires
            old(self).selected >= old(self).offset ==> old(self).offset + viewport_height
                <= usize::MAX,
            old(self).selected >= old(self).offset + viewport_height ==> viewport_height > 0,
        ensures
            final(self).selected == old(self).selected,
            final(self).offset == scrolled_offset(old(self).selected, old(self).offset, viewport_height),
    {
        if self.selected < self.offset {
            self.offset = self.selected;
        } else if self.selected >= self.offset + viewport_height {
            self.offset = self.selected - (viewport_height - 1);
        }
    }
}

/// Items shown by the model list, each after a prefix.
#[derive(Debug)]
pub struct ModelSelector<'a> {
    pub items: &'a [String],
    pub item_prefix: &'a str,
}

impl<'a> ModelSelector<'a> {
    /// A list of `items`, each indented by two spaces.
    pub fn new(items: &'a [String]) -> (s: Self)
        ensures
            s.items == items,
            s.item_prefix@ == seq![' ', ' '],
    {
        proof {
            reveal_strlit("  ");
        }
        ModelSelector { items, item_prefix: "  " }
    }

    /// The same list with `prefix` before each item.
    pub fn item_prefix(self, prefix: &'a str) -> (s: Self)
        ensures
            s.items == self.items,
            s.item_prefix == prefix,
    {
        ModelSelector { items: self.items, item_prefix: prefix }
    }
}

/// The rows available to the list in an area `height` rows tall, two fewer when it is
/// framed by a border.
pub fn viewport_height(height: u16, bordered: bool) -> (h: usize)
    ensures
        h == (if bordered {
            if height >= 2 {
                height - 2
            } else {
                0
            }
        } else {
            height as int
        }),
{
    if bordered {
        if height >= 2 {
            (height - 2) as usize
        } else {
            0
        }
    } else {
        height as usize
    }
}

impl<'a> ModelSelector<'a> {
    /// Scrolls `state` so that its selection shows in `viewport_height` rows, and gives the
    /// rows that show: from the scroll offset on, at most `viewport_height` of them, each
    /// item after the prefix, with whether it is the selected one.
    pub fn visible_rows(&self, state: &mut ModelSelectorState, viewport_height: usize) -> (rows: Vec<(String, bool)>)
        requires
            old(state).selected >= old(state).offset ==> old(state).offset + viewport_height <= usize::MAX,
            old(state).selected >= old(state).offset + viewport_height ==> viewport_height > 0,
        ensures
            final(state).selected == old(state).selected,
            final(state).offset == scrolled_offset(old(state).selected, old(state).offset, viewport_height),
            rows@.len() == (if final(state).offset >= self.items@.len() {
                0
            } else if final(state).offset + viewport_height <= self.items@.len() {
                viewport_height as int
            } else {
                self.items@.len() - final(state).offset
            }),
            forall|k: int| 0 <= k < rows@.len() ==> {
                &&& (#[trigger] rows@[k]).0@ == self.item_prefix@ + self.items@[final(state).offset + k]@
                &&& rows@[k].1 == (final(state).offset + k == final(state).selected)
            },
    {
        state.update_offset(viewport_height);
        let start = state.offset;
        let n = self.items.len();
        let end = if start >= n {
            start
        } else if viewport_height <= n - start {
            start + viewport_height
        } else {
            n
        };
        let mut rows: Vec<(String, bool)> = Vec::new();
        let mut i = start;
        while i < end
            invariant
                start <= i <= end,
                end <= n || end == start,
                n == self.items@.len(),
                start == state.offset,
                rows@.len() == i - start,
                forall|k: int| 0 <= k < rows@.len() ==> {
                    &&& (#[trigger] rows@[k]).0@ == self.item_prefix@ + self.items@[start + k]@
                    &&& rows@[k].1 == (start + k == state.selected)
                },
            decreases end - i,
        {
            let mut text = self.item_prefix.to_string();
            crate::views::menu::push_text(&mut text, self.items[i].as_str());
            rows.push((text, i == state.selected));
            i = i + 1;
        }
        rows
    }
}

} // verus!
