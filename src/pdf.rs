//! Paging through a document made of pages.
use vstd::prelude::*;

verus! {

/// A request to turn the page.
#[derive(PartialEq, Eq, Structural, Clone, Copy, Debug)]
pub enum PdfPageChange {
    Previous,
    Next,
}

/// A paged document being previewed: how many pages it has, and which one is shown.
pub struct Pdf {
    n_pages: i32,
    page_index: i32,
}

impl Pdf {
    /// The number of pages.
    pub closed spec fn pages(&self) -> int {
        self.n_pages as int
    }

    /// The index of the page shown.
    pub closed spec fn index(&self) -> int {
        self.page_index as int
    }

    /// The page shown is a page of the document, or the first index of one without pages.
    pub open spec fn wf(&self) -> bool {
        &&& 0 <= self.index()
        &&& self.index() < self.pages() || self.index() == 0
    }

    /// A document of `n_pages` pages, at its first page.
    pub fn new(n_pages: i32) -> (r: Pdf)
        ensures
            r.wf(),
            r.pages() == n_pages,
            r.index() == 0,
    {
        Pdf { n_pages, page_index: 0 }
    }

    /// Whether there is a page before the one shown.
    pub fn has_previous_page(&self) -> (r: bool)
        ensures
            r == (self.index() > 0),
    {
        self.page_index > 0
    }

    /// Whether there is a page after the one shown.
    pub fn has_next_page(&self) -> (r: bool)
        requires
            self.wf(),
        ensures
            r == (self.index() < self.pages() - 1),
    {
        self.page_index + 1 < self.n_pages
    }

    /// The index of the page shown, where the document has that page.
    pub fn current_page(&self) -> (r: Option<i32>)
        ensures
            match r {
                Some(i) => i == self.index() && 0 <= i < self.pages(),
                None => !(0 <= self.index() < self.pages()),
            },
    {
        if 0 <= self.page_index && self.page_index < self.n_pages {
            Some(self.page_index)
        } else {
            None
        }
    }

    /// Turns the page, where there is a page in that direction; else nothing changes.
    pub fn update_page(&mut self, change: PdfPageChange)
        requires
            old(self).wf(),
        ensures
            final(self).wf(),
            final(self).pages() == old(self).pages(),
            final(self).index() == match change {
                PdfPageChange::Previous => if old(self).index() > 0 {
                    old(self).index() - 1
                } else {
                    old(self).index()
                },
                PdfPageChange::Next => if old(self).index() < old(self).pages() - 1 {
                    old(self).index() + 1
                } else {
                    old(self).index()
                },
            },
    {
        match change {
            PdfPageChange::Previous => if self.has_previous_page() {
                self.page_index = self.page_index - 1;
            },
            PdfPageChange::Next => if self.has_next_page() {
                self.page_index = self.page_index + 1;
            },
        }
    }
}

} // verus!
