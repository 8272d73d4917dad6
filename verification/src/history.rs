//! The pages that a reader visited, to go back and forward among.

use vstd::prelude::*;

use crate::page::PageNo;

verus! {

/// Pages in the order in which they were visited, and where the reader is
/// among them.
#[derive(Debug, Clone)]
pub struct History {
    pub pages: Vec<PageNo>,
    pub pos: usize,
}

/// What a history holds.
pub struct HistoryView {
    pub pages: Seq<PageNo>,
    pub pos: int,
}

impl View for History {
    type V = HistoryView;

    open spec fn view(&self) -> HistoryView {
        HistoryView { pages: self.pages@, pos: self.pos as int }
    }
}

impl HistoryView {
    /// There is a page, the reader is on one, and none follows itself.
    pub open spec fn wf(self) -> bool {
        &&& 0 <= self.pos < self.pages.len()
        &&& forall|i: int|
            0 < i < self.pages.len() ==> self.pages[i - 1] != #[trigger] self.pages[i]
    }

    pub open spec fn at(page: PageNo) -> HistoryView {
        HistoryView { pages: seq![page], pos: 0 }
    }

    pub open spec fn current(self) -> PageNo {
        self.pages[self.pos]
    }

    /// A visit: what lay ahead is gone; a visit to where the reader is
    /// already counts for nothing.
    pub open spec fn visited(self, page: PageNo) -> HistoryView {
        if page == self.current() {
            self
        } else {
            HistoryView { pages: self.pages.take(self.pos + 1).push(page), pos: self.pos + 1 }
        }
    }

    pub open spec fn can_step(self, forward: bool) -> bool {
        if forward {
            self.pos + 1 < self.pages.len()
        } else {
            self.pos > 0
        }
    }

    /// One step; none at the ends.
    pub open spec fn stepped(self, forward: bool) -> HistoryView {
        if !self.can_step(forward) {
            self
        } else if forward {
            HistoryView { pos: self.pos + 1, ..self }
        } else {
            HistoryView { pos: self.pos - 1, ..self }
        }
    }
}

impl History {
    pub open spec fn wf(self) -> bool {
        self@.wf()
    }

    pub fn new(page: PageNo) -> (history: History)
        ensures
            history.wf(),
            history@ == HistoryView::at(page),
    {
        let mut pages: Vec<PageNo> = Vec::new();
        pages.push(page);
        assert(pages@ =~= seq![page]);
        History { pages, pos: 0 }
    }

    /// How many pages there are, those ahead included.
    pub fn len(&self) -> (n: usize)
        ensures
            n == self@.pages.len(),
    {
        self.pages.len()
    }

    pub fn current(&self) -> (page: PageNo)
        requires
            self.wf(),
        ensures
            page == self@.current(),
    {
        self.pages[self.pos]
    }

    /// Visits a page: what lay ahead is gone.
    pub fn visit(&mut self, page: PageNo)
        requires
            old(self).wf(),
        ensures
            final(self).wf(),
            final(self)@ == old(self)@.visited(page),
    {
        if page == self.current() {
            return;
        }
        let count: usize = self.pages.len();
        assert(self.pos < count);
        self.pages.truncate(self.pos + 1);
        self.pages.push(page);
        self.pos = self.pages.len() - 1;
        assert(self.pages@ =~= old(self).pages@.take(old(self).pos + 1).push(page));
    }

    /// Goes one step back or forward; `None` at the end.
    pub fn step(&mut self, forward: bool) -> (page: Option<PageNo>)
        requires
            old(self).wf(),
        ensures
            final(self).wf(),
            final(self)@ == old(self)@.stepped(forward),
            page is Some <==> old(self)@.can_step(forward),
            page is Some ==> page == Some(final(self)@.current()),
    {
        if forward {
            if self.pos >= self.pages.len() - 1 {
                return None;
            }
            self.pos = self.pos + 1;
        } else {
            if self.pos == 0 {
                return None;
            }
            self.pos = self.pos - 1;
        }
        Some(self.pages[self.pos])
    }

    /// Begins anew on a page.
    pub fn reset(&mut self, page: PageNo)
        ensures
            final(self).wf(),
            final(self)@ == HistoryView::at(page),
    {
        *self = History::new(page);
    }

    pub fn can_back(&self) -> (r: bool)
        ensures
            r == self@.can_step(false),
    {
        self.pos > 0
    }

    pub fn can_forward(&self) -> (r: bool)
        requires
            self.wf(),
        ensures
            r == self@.can_step(true),
    {
        self.pos < self.pages.len() - 1
    }
}

/// A step back after a visit to another page leads to where the reader was,
/// and a step forward from there to the page again.
pub proof fn law_back_undoes_visit(h: HistoryView, page: PageNo)
    requires
        h.wf(),
        page != h.current(),
    ensures
        h.visited(page).wf(),
        h.visited(page).current() == page,
        h.visited(page).can_step(false),
        h.visited(page).stepped(false).current() == h.current(),
        h.visited(page).stepped(false).stepped(true) == h.visited(page),
{
}

/// A step one way and a step the other lead back to where they began.
pub proof fn law_steps_cancel(h: HistoryView, forward: bool)
    requires
        h.wf(),
        h.can_step(forward),
    ensures
        h.stepped(forward).wf(),
        h.stepped(forward).can_step(!forward),
        h.stepped(forward).stepped(!forward) == h,
{
}

/// After a visit to another page nothing lies ahead.
pub proof fn law_visit_drops_future(h: HistoryView, page: PageNo)
    requires
        h.wf(),
        page != h.current(),
    ensures
        !h.visited(page).can_step(true),
{
}

} // verus!
