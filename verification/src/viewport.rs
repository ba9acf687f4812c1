//! The scrolling window over the container list.
use vstd::prelude::*;

verus! {

/// The larger of two integers.
pub open spec fn imax(a: int, b: int) -> int {
    if a >= b { a } else { b }
}

/// The smaller of two integers.
pub open spec fn imin(a: int, b: int) -> int {
    if a <= b { a } else { b }
}

/// The mathematical state of a viewport.
pub struct ViewportView {
    pub num_containers: int,
    pub selection: int,
    pub top: int,
    pub height: int,
}

impl ViewportView {
    /// The number of rows the viewport is treated as having: a viewport of height zero still
    /// keeps the selected line in view.
    pub open spec fn rows(self) -> int {
        imax(self.height, 1)
    }

    /// Well-formedness: the selection is a container that lies inside the window, and the window
    /// does not hang past the last container unless it starts at the first one.
    pub open spec fn is_valid(self) -> bool {
        ||| self.num_containers == 0 && self.selection == 0 && self.top == 0
        ||| {
            &&& self.num_containers > 0
            &&& 0 <= self.selection < self.num_containers
            &&& (self.top + self.rows() <= self.num_containers || self.top == 0)
            &&& 0 <= self.top <= self.selection
            &&& self.selection < self.top + self.rows()
        }
    }
}

} // verus!

verus! {

impl ViewportView {
    /// The same viewport with another selection and top line.
    pub open spec fn at(self, selection: int, top: int) -> Self {
        ViewportView { selection, top, ..self }
    }

    /// The smallest top line at or after `top` that keeps `selection` in view.
    pub open spec fn top_showing(self, selection: int, top: int) -> int {
        imax(top, selection - self.rows() + 1)
    }

    /// The largest top line that does not leave the window hanging past the last container.
    pub open spec fn max_top(self) -> int {
        imax(self.num_containers - self.rows(), 0)
    }

    /// Moving the selection one line up (not past the first line); the window follows it.
    pub open spec fn moved_up_one_line(self) -> Self {
        let selection = imax(self.selection - 1, 0);
        self.at(selection, imin(self.top, selection))
    }

    /// Moving the selection one line down (not past the last line); the window follows it.
    pub open spec fn moved_down_one_line(self) -> Self {
        let selection = imin(imax(self.num_containers - 1, 0), self.selection + 1);
        self.at(selection, self.top_showing(selection, self.top))
    }

    /// Selecting the first line and showing it at the top.
    pub open spec fn moved_to_first_line(self) -> Self {
        self.at(0, 0)
    }

    /// Selecting the last line; the window moves just far enough to show it.
    pub open spec fn moved_to_last_line(self) -> Self {
        let selection = imax(self.num_containers - 1, 0);
        self.at(selection, self.top_showing(selection, self.top))
    }

    /// Scrolling the window up `n` lines. The window stops at the first line; the selection
    /// stays where it is unless it would leave the window at the bottom, and whatever the window
    /// could not scroll moves the selection up instead (not past the first line).
    pub open spec fn scrolled_up(self, n: int) -> Self {
        let top = imax(self.top - n, 0);
        let rest = n - (self.top - top);
        let selection = imax(imin(self.selection, top + self.rows() - 1) - rest, 0);
        self.at(selection, top)
    }

    /// Scrolling the window down `n` lines. The window stops where its last row shows the last
    /// container; the selection stays where it is unless it would leave the window at the top,
    /// and whatever the window could not scroll moves the selection down instead (not past the
    /// last line).
    pub open spec fn scrolled_down(self, n: int) -> Self {
        let top = self.top + imin(n, imax(self.num_containers - (self.top + self.rows()), 0));
        let rest = n - (top - self.top);
        let selection = imax(self.selection, top) + imin(
            rest,
            imax(self.num_containers - 1, 0) - imax(self.selection, top),
        );
        self.at(selection, top)
    }

    /// Resizing the window to `height` rows. A shrinking window keeps its top line unless the
    /// selection would fall out of view at the bottom; a growing window moves up as far as
    /// needed to stop hanging past the last container.
    pub open spec fn resized(self, height: int) -> Self {
        let resized = ViewportView { height, ..self };
        if self.num_containers == 0 || height == self.height {
            resized
        } else if height < self.height {
            resized.at(self.selection, resized.top_showing(self.selection, self.top))
        } else {
            resized.at(self.selection, imax(imin(self.top, self.num_containers - height), 0))
        }
    }

    /// The viewport over `num_containers` containers. The selection is clamped to the last
    /// container; the window moves up as far as needed to stop hanging past the last container
    /// (with a height of zero, it shows just the selection).
    pub open spec fn with_num_containers(self, num_containers: int) -> Self {
        let resized = ViewportView { num_containers, ..self };
        if num_containers == 0 {
            resized.at(0, 0)
        } else {
            let selection = imin(self.selection, num_containers - 1);
            if self.height == 0 {
                resized.at(selection, selection)
            } else {
                resized.at(selection, imax(imin(self.top, num_containers - self.height), 0))
            }
        }
    }

    /// Scrolling so that the selection is on the first row, as far as the end of the list allows.
    pub open spec fn selection_scrolled_to_top(self) -> Self {
        self.at(self.selection, imin(self.selection, self.max_top()))
    }

    /// Scrolling so that the selection is on the middle row, as far as both ends of the list allow.
    pub open spec fn selection_scrolled_to_middle(self) -> Self {
        let top = imax(imin(self.selection - (self.rows() - 1) / 2, self.max_top()), 0);
        self.at(self.selection, top)
    }

    /// Scrolling so that the selection is on the last row, as far as the start of the list allows.
    pub open spec fn selection_scrolled_to_bottom(self) -> Self {
        self.at(self.selection, imax(self.selection - self.rows() + 1, 0))
    }

    /// Clicking the `row`-th row of the window selects the container shown there, if any.
    pub open spec fn clicked(self, row: int) -> Self {
        if row < self.height && self.top + row < self.num_containers {
            self.at(self.top + row, self.top)
        } else {
            self
        }
    }

    /// The scrollbar to show: when the window cannot show every container, the number of lines
    /// the window can start at, and the one it starts at.
    pub open spec fn scrollbar(self) -> Option<ScrollbarParameters> {
        if self.num_containers > self.height {
            Some(
                ScrollbarParameters {
                    total_items: (self.max_top() + 1) as usize,
                    top_item: self.top as usize,
                },
            )
        } else {
            None
        }
    }

    /// The number of containers the window shows.
    pub open spec fn visible_rows(self) -> int {
        imin(self.height, imax(self.num_containers - self.top, 0))
    }
}

/// The smaller of two line counts.
fn smaller(a: usize, b: usize) -> (r: usize)
    ensures
        r == imin(a as int, b as int),
{
    if a <= b { a } else { b }
}

/// The larger of two line counts.
fn larger(a: usize, b: usize) -> (r: usize)
    ensures
        r == imax(a as int, b as int),
{
    if a >= b { a } else { b }
}

/// What a scrollbar shows: the number of positions the window can take, and the current one.
#[derive(Clone, Copy, Debug, PartialEq, Eq, Structural)]
pub struct ScrollbarParameters {
    pub total_items: usize,
    pub top_item: usize,
}

/// A window of `height` rows over a list of `num_containers` containers, starting at line `top`,
/// with the container at line `selection` selected.
#[derive(Clone, Copy, Debug, PartialEq, Eq, Structural)]
pub struct Viewport {
    num_containers: usize,
    selection: usize,
    top: usize,
    height: usize,
}

impl View for Viewport {
    type V = ViewportView;

    closed spec fn view(&self) -> ViewportView {
        ViewportView {
            num_containers: self.num_containers as int,
            selection: self.selection as int,
            top: self.top as int,
            height: self.height as int,
        }
    }
}

impl Default for Viewport {
    fn default() -> (v: Self)
        ensures
            v@ == (ViewportView { num_containers: 0, selection: 0, top: 0, height: 0 }),
    {
        Viewport { num_containers: 0, selection: 0, top: 0, height: 0 }
    }
}

impl Viewport {
    /// The viewport with the given fields, if they form a valid viewport.
    pub fn from_parts(num_containers: usize, selection: usize, top: usize, height: usize) -> (r:
        Option<Viewport>)
        ensures
            r is Some <==> (ViewportView {
                num_containers: num_containers as int,
                selection: selection as int,
                top: top as int,
                height: height as int,
            }).is_valid(),
            r matches Some(v) ==> v@ == (ViewportView {
                num_containers: num_containers as int,
                selection: selection as int,
                top: top as int,
                height: height as int,
            }),
    {
        let v = Viewport { num_containers, selection, top, height };
        if v.is_valid() {
            Some(v)
        } else {
            None
        }
    }

    /// Whether the viewport is well formed.
    pub fn is_valid(&self) -> (r: bool)
        ensures
            r == self@.is_valid(),
    {
        let rows = if self.height > 1 { self.height } else { 1 };
        self.num_containers == 0 && self.selection == 0 && self.top == 0 || self.num_containers > 0
            && self.selection < self.num_containers && (rows <= self.num_containers && self.top
            <= self.num_containers - rows || self.top == 0) && self.top <= self.selection
            && self.selection - self.top < rows
    }

    /// The height of the window.
    pub fn height(&self) -> (r: usize)
        ensures
            r == self@.height,
    {
        self.height
    }

    pub fn move_selection_up_one_line(&mut self)
        requires
            old(self)@.is_valid(),
        ensures
            final(self)@ == old(self)@.moved_up_one_line(),
            final(self)@.is_valid(),
    {
        self.selection = self.selection.saturating_sub(1);
        if self.top > self.selection {
            self.top -= 1;
        }
    }

    pub fn move_selection_down_one_line(&mut self)
        requires
            old(self)@.is_valid(),
        ensures
            final(self)@ == old(self)@.moved_down_one_line(),
            final(self)@.is_valid(),
    {
        self.selection = smaller(self.num_containers.saturating_sub(1), self.selection + 1);
        if self.height == 0 {
            self.top = self.selection;
        } else if self.selection >= self.top + self.height {
            self.top += 1;
        }
    }

    pub fn scroll_up_n_lines(&mut self, n: usize)
        requires
            old(self)@.is_valid(),
        ensures
            final(self)@ == old(self)@.scrolled_up(n as int),
            final(self)@.is_valid(),
    {
        // First, try to scroll the viewport up by as much as possible.
        let to_scroll = smaller(n, self.top);
        self.top -= to_scroll;
        self.selection = smaller(self.selection, self.top + self.height.saturating_sub(1));

        // Second, move the viewport up if we still need to scroll more.
        self.selection = self.selection.saturating_sub(n - to_scroll);
    }

    pub fn scroll_down_n_lines(&mut self, n: usize)
        requires
            old(self)@.is_valid(),
        ensures
            final(self)@ == old(self)@.scrolled_down(n as int),
            final(self)@.is_valid(),
    {
        // First, try to scroll the viewport down by as much as possible without it overhanging.
        let to_scroll = smaller(
            n,
            self.num_containers.saturating_sub(self.top + larger(self.height, 1)),
        );
        self.top += to_scroll;
        self.selection = larger(self.selection, self.top);

        // Second, move the viewport down if we still need to scroll more.
        self.selection += smaller(
            n - to_scroll,
            self.num_containers.saturating_sub(1) - self.selection,
        );
    }

    pub fn change_viewport_height(&mut self, height: usize)
        requires
            old(self)@.is_valid(),
            old(self)@.num_containers > 0 && 0 < height < old(self)@.height ==> old(self)@.top
                + height - 1 <= usize::MAX,
            old(self)@.num_containers > 0 && height > old(self)@.height ==> old(self)@.top + height
                <= usize::MAX,
        ensures
            final(self)@ == old(self)@.resized(height as int),
            final(self)@.is_valid(),
    {
        let old_height = self.height;
        self.height = height;
        if self.num_containers > 0 {
            if self.height < old_height {
                if self.height == 0 {
                    self.top = self.selection;
                } else {
                    self.top += self.selection.saturating_sub(self.top + self.height - 1);
                }
            } else if self.height > old_height {
                self.top = self.top.saturating_sub(
                    (self.top + self.height).saturating_sub(self.num_containers),
                );
            }
        }
    }

    pub fn change_num_containers(&mut self, num_containers: usize)
        requires
            old(self)@.is_valid(),
        ensures
            final(self)@ == old(self)@.with_num_containers(num_containers as int),
            final(self)@.is_valid(),
    {
        self.num_containers = num_containers;

        if num_containers == 0 {
            self.selection = 0;
            self.top = 0;
        } else {
            if self.selection >= num_containers {
                self.selection = num_containers - 1;
            }
            if self.height == 0 {
                self.top = self.selection;
            } else {
                self.top = self.top.saturating_sub(
                    (self.top + self.height).saturating_sub(num_containers),
                );
            }
        }
    }

    /// Renders the containers the window shows, in order: `g` renders the selected one and `f`
    /// the others.
    pub fn select_for_render<C, LI, F, G>(&self, containers: &[C], f: F, g: G) -> (r: Vec<LI>) where
        F: Fn(&C) -> LI,
        G: Fn(&C) -> LI,

        requires
            self@.is_valid(),
            containers@.len() == self@.num_containers,
            forall|i: int|
                #![trigger containers@[i]]
                self@.top <= i < self@.top + self@.visible_rows() ==> f.requires(
                    (&containers@[i],),
                ) && g.requires((&containers@[i],)),
        ensures
            r@.len() == self@.visible_rows(),
            forall|i: int|
                0 <= i < r@.len() ==> if self@.top + i == self@.selection {
                    g.ensures((&containers@[self@.top + i],), #[trigger] r@[i])
                } else {
                    f.ensures((&containers@[self@.top + i],), r@[i])
                },
    {
        let empty_rows = (self.top + self.height).saturating_sub(self.num_containers);
        let container_rows = self.height - empty_rows;
        let selection_offset_in_viewport = self.selection - self.top;
        let mut rendered: Vec<LI> = Vec::new();
        let mut offset: usize = 0;
        while offset < container_rows
            invariant
                self@.is_valid(),
                containers@.len() == self@.num_containers,
                container_rows == self@.visible_rows(),
                selection_offset_in_viewport == self@.selection - self@.top,
                offset <= container_rows,
                rendered@.len() == offset,
            forall|i: int|
                    #![trigger containers@[i]]
                    self@.top <= i < self@.top + self@.visible_rows() ==> f.requires(
                        (&containers@[i],),
                    ) && g.requires((&containers@[i],)),
                forall|i: int|
                    0 <= i < offset ==> if self@.top + i == self@.selection {
                        g.ensures((&containers@[self@.top + i],), #[trigger] rendered@[i])
                    } else {
                        f.ensures((&containers@[self@.top + i],), rendered@[i])
                    },
            decreases container_rows - offset,
        {
            let container = &containers[self.top + offset];
            let item = if offset == selection_offset_in_viewport {
                g(container)
            } else {
                f(container)
            };
            rendered.push(item);
            offset += 1;
        }
        rendered
    }

    pub fn move_selection_to_first_line(&mut self)
        requires
            old(self)@.is_valid(),
        ensures
            final(self)@ == old(self)@.moved_to_first_line(),
            final(self)@.is_valid(),
    {
        self.selection = 0;
        self.top = 0;
    }

    pub fn move_selection_to_last_line(&mut self)
        requires
            old(self)@.is_valid(),
        ensures
            final(self)@ == old(self)@.moved_to_last_line(),
            final(self)@.is_valid(),
    {
        self.selection = self.num_containers.saturating_sub(1);
        let rows = larger(self.height, 1);
        if self.selection - self.top >= rows {
            self.top = self.selection + 1 - rows;
        }
    }

    /// The number of lines that half a page scrolls: half the height, and at least one line.
    pub fn half_page(&self) -> (r: usize)
        ensures
            r == imax(self@.height / 2, 1),
    {
        larger(self.height / 2, 1)
    }

    /// The number of lines that a full page scrolls: the height, and at least one line.
    pub fn full_page(&self) -> (r: usize)
        ensures
            r == self@.rows(),
    {
        larger(self.height, 1)
    }

    pub fn scroll_selection_to_top(&mut self)
        requires
            old(self)@.is_valid(),
        ensures
            final(self)@ == old(self)@.selection_scrolled_to_top(),
            final(self)@.is_valid(),
    {
        let max_top = self.num_containers.saturating_sub(larger(self.height, 1));
        self.top = smaller(self.selection, max_top);
    }

    pub fn scroll_selection_to_middle(&mut self)
        requires
            old(self)@.is_valid(),
        ensures
            final(self)@ == old(self)@.selection_scrolled_to_middle(),
            final(self)@.is_valid(),
    {
        let rows = larger(self.height, 1);
        let max_top = self.num_containers.saturating_sub(rows);
        self.top = smaller(self.selection.saturating_sub((rows - 1) / 2), max_top);
    }

    pub fn scroll_selection_to_bottom(&mut self)
        requires
            old(self)@.is_valid(),
        ensures
            final(self)@ == old(self)@.selection_scrolled_to_bottom(),
            final(self)@.is_valid(),
    {
        self.top = (self.selection + 1).saturating_sub(larger(self.height, 1));
    }

    /// Handles a click on the `row`-th row of the window.
    pub fn handle_click(&mut self, row: usize)
        requires
            old(self)@.is_valid(),
        ensures
            final(self)@ == old(self)@.clicked(row as int),
            final(self)@.is_valid(),
    {
        if row < self.height && row < self.num_containers - self.top {
            self.selection = self.top + row;
        }
    }

    /// The scrollbar to show, when the window cannot show every container.
    pub fn scrollbar(&self) -> (r: Option<ScrollbarParameters>)
        requires
            self@.is_valid(),
        ensures
            r == self@.scrollbar(),
    {
        if self.num_containers > self.height {
            Some(
                ScrollbarParameters {
                    total_items: self.num_containers.saturating_sub(larger(self.height, 1)) + 1,
                    top_item: self.top,
                },
            )
        } else {
            None
        }
    }
}

} // verus!

verus! {

/// Scrolling up `a` lines and then `b` more is the same as scrolling up `a + b` lines at once.
pub proof fn lemma_scroll_up_composes(v: ViewportView, a: nat, b: nat)
    requires
        v.is_valid(),
    ensures
        v.scrolled_up(a as int).scrolled_up(b as int) == v.scrolled_up(a + b as int),
{
}

/// Scrolling down `a` lines and then `b` more is the same as scrolling down `a + b` lines at once.
pub proof fn lemma_scroll_down_composes(v: ViewportView, a: nat, b: nat)
    requires
        v.is_valid(),
    ensures
        v.scrolled_down(a as int).scrolled_down(b as int) == v.scrolled_down(a + b as int),
{
}

/// A new count of containers at which the window does not hang past the last container and the
/// selection is still a container leaves the window and the selection where they are; in
/// particular, the same count again changes nothing.
pub proof fn lemma_recount_keeps_window(v: ViewportView, num_containers: int)
    requires
        v.is_valid(),
        v.top + v.height <= num_containers,
        v.selection < num_containers,
    ensures
        v.with_num_containers(num_containers).top == v.top,
        v.with_num_containers(num_containers).selection == v.selection,
        v.with_num_containers(num_containers).height == v.height,
        v.with_num_containers(num_containers).num_containers == num_containers,
        v.with_num_containers(v.num_containers) == v,
{
}

/// A new count of containers never moves the window down, nor the selection down, and never
/// leaves the selection past the last container.
pub proof fn lemma_recount_moves_up_only(v: ViewportView, num_containers: int)
    requires
        v.is_valid(),
        num_containers >= 0,
    ensures
        v.with_num_containers(num_containers).top <= v.top,
        v.with_num_containers(num_containers).selection <= v.selection,
        num_containers > 0 ==> v.with_num_containers(num_containers).selection < num_containers,
{
}

} // verus!

