//! Routing of selection and root events between the panes and the preview.
use vstd::prelude::*;
use crate::location::{has_parent, parent_of, Location};
use crate::panes::{synced, Entry, FileSelection, PaneStack, Selection, SyncError};
use crate::preview::{begun, loads, PreviewRequest, PreviewResolver};

verus! {

/// The panes and the preview of one window.
pub struct Browser {
    pub panes: PaneStack,
    pub preview: PreviewResolver,
}

impl Browser {
    pub open spec fn wf(&self) -> bool {
        self.panes.wf() && self.preview.wf()
    }

    /// A window listing `root`, with nothing selected.
    pub fn new(root: Location) -> (r: Browser)
        ensures
            r.wf(),
            r.panes@ == seq![root@],
            r.preview@.generation == 0,
    {
        Browser { panes: PaneStack::new(root), preview: PreviewResolver::new() }
    }

    /// Opens a window at `location`: a directory becomes the root; a file's parent becomes the
    /// root, and the file the selection. Returns the window and the preview work to do.
    pub fn open(location: Location, is_dir: bool) -> (r: (Browser, PreviewRequest))
        ensures
            r.0.wf(),
            (is_dir || !has_parent(location@)) ==> r.0.panes@ == seq![location@] && r.1 is Nothing,
            (!is_dir && has_parent(location@)) ==> r.0.panes@ == seq![parent_of(location@)] && (
            r.1 matches PreviewRequest::File { generation, location: l } && l@ == location@),
    {
        if is_dir {
            return (Browser::new(location), PreviewRequest::Nothing);
        }
        match location.parent() {
            None => (Browser::new(location), PreviewRequest::Nothing),
            Some(parent) => {
                let mut b = Browser::new(parent.duplicate());
                let selection = Selection::Files(FileSelection {
                    parent,
                    files: vec![Entry { location, is_dir: false }],
                });
                let ghost files = seq![(location@, false)];
                proof {
                    if let Selection::Files(FileSelection { parent, files: fs }) = &selection {
                        assert(fs@.map_values(|e: Entry| e@) =~= files);
                    }
                }
                let request = b.preview.begin(&selection);
                (b, request)
            },
        }
    }

    /// Reacts to a new selection: the panes follow it, then the preview starts resolving it.
    /// A selection that does not fit the panes changes nothing.
    pub fn select(&mut self, selection: &Selection) -> (r: Result<PreviewRequest, SyncError>)
        requires
            old(self).wf(),
            old(self).preview@.generation < u64::MAX,
        ensures
            final(self).wf(),
            match synced(old(self).panes@, selection@) {
                Ok(q) => r is Ok && final(self).panes@ == q && final(self).preview@ == begun(
                    old(self).preview@,
                    selection@,
                ) && (r matches Ok(req) ==> (req is Nothing <==> !loads(selection@))),
                Err(e) => r == Err::<PreviewRequest, SyncError>(e) && final(self).panes@ == old(
                    self,
                ).panes@ && final(self).preview@ == old(self).preview@,
            },
    {
        match self.panes.apply_selection(selection) {
            Err(e) => Err(e),
            Ok(()) => Ok(self.preview.begin(selection)),
        }
    }

    /// Reacts to a new root: one pane listing it replaces every pane.
    pub fn set_root(&mut self, root: Location)
        requires
            old(self).wf(),
        ensures
            final(self).wf(),
            final(self).panes@ == seq![root@],
            final(self).preview@ == old(self).preview@,
    {
        self.panes.new_root(root);
    }
}

} // verus!
