//! The preview resolver: which preview a selection gets, with a generation counter so that only
//! the latest request's result is ever shown.
use vstd::prelude::*;
use crate::classify::{class_of_mime, classify, preview_window, ContentClass, PREVIEW_BUFFER_SIZE};
use crate::describe::{summarize, summarizes, DateStamp, EntryMeta, GroupSummary};
use crate::location::Location;
use crate::panes::{FileSelection, Selection, SelectionView};

verus! {

/// What is known of a single selected file.
pub struct FileMeta {
    pub display_name: String,
    /// The media type, such as `text/plain`.
    pub mime: String,
    pub size: u64,
    pub created: Option<DateStamp>,
    pub modified: Option<DateStamp>,
    pub is_symlink: bool,
}

/// The preview of a single file.
pub struct FilePreview {
    pub meta: FileMeta,
    pub class: ContentClass,
    /// The start of the contents, for text.
    pub text: Option<Vec<u8>>,
}

/// A resolved preview.
pub enum Preview {
    File(FilePreview),
    Group(GroupSummary),
}

/// What the preview shows.
pub enum PreviewState {
    /// Nothing: no selection, or a single directory.
    Empty,
    /// Waiting for the request of this generation.
    Loading(u64),
    Resolved(Preview),
    /// The request failed, for this reason.
    Failed(String),
}

/// The work that a new selection asks for, tagged with its generation.
pub enum PreviewRequest {
    /// No work: the preview is empty.
    Nothing,
    /// Query the metadata of one file (and the start of its contents, for text).
    File { generation: u64, location: Location },
    /// Query the metadata of each entry of a group.
    Group { generation: u64, locations: Vec<Location> },
}

/// The resolver as a value.
pub struct ResolverView {
    pub generation: u64,
    pub state: PreviewState,
}

/// Resolves selections into previews, one request at a time.
pub struct PreviewResolver {
    generation: u64,
    state: PreviewState,
}

impl View for PreviewResolver {
    type V = ResolverView;

    closed spec fn view(&self) -> ResolverView {
        ResolverView { generation: self.generation, state: self.state }
    }
}

/// The resolver waits only on its latest generation.
pub open spec fn resolver_wf(r: ResolverView) -> bool {
    r.state matches PreviewState::Loading(g) ==> g == r.generation
}

/// Whether a selection needs asynchronous work: one file that is not a directory, or a group.
pub open spec fn loads(s: SelectionView) -> bool {
    match s {
        SelectionView::Nothing => false,
        SelectionView::Files { parent, files } => files.len() > 1 || (files.len() == 1 && !files[0].1),
    }
}

/// The resolver once a new selection came in: a new generation, waiting on it where there is
/// work to do, empty otherwise.
pub open spec fn begun(r: ResolverView, s: SelectionView) -> ResolverView {
    let g = (r.generation + 1) as u64;
    ResolverView {
        generation: g,
        state: if loads(s) {
            PreviewState::Loading(g)
        } else {
            PreviewState::Empty
        },
    }
}

/// Whether a completion of generation `g` is taken: only while waiting on that very generation.
pub open spec fn accepts(r: ResolverView, g: u64) -> bool {
    r.state == PreviewState::Loading(g)
}

/// The resolver once a completion of generation `g` with outcome `o` came in.
pub open spec fn landed(r: ResolverView, g: u64, o: PreviewState) -> ResolverView {
    if accepts(r, g) {
        ResolverView { generation: r.generation, state: o }
    } else {
        r
    }
}

/// Whether a state is final for its request.
pub open spec fn is_outcome(o: PreviewState) -> bool {
    o is Resolved || o is Failed
}

/// The preview of a file with metadata `meta` and, where read, contents `contents`.
pub open spec fn previews_file(p: FilePreview, meta: FileMeta, contents: Option<Seq<u8>>) -> bool {
    &&& p.meta == meta
    &&& p.class == class_of_mime(meta.mime@, contents)
    &&& p.text is Some <==> p.class == ContentClass::Text
    &&& p.text matches Some(t) ==> contents matches Some(c) && t@ == preview_window(c)
}

impl PreviewResolver {
    pub open spec fn wf(&self) -> bool {
        resolver_wf(self@)
    }

    /// A resolver that shows nothing.
    pub fn new() -> (r: PreviewResolver)
        ensures
            r.wf(),
            r@.generation == 0,
            r@.state == PreviewState::Empty,
    {
        PreviewResolver { generation: 0, state: PreviewState::Empty }
    }

    /// The current generation.
    pub fn generation(&self) -> (r: u64)
        ensures
            r == self@.generation,
    {
        self.generation
    }

    /// What the preview shows now.
    pub fn state(&self) -> (r: &PreviewState)
        ensures
            *r == self@.state,
    {
        &self.state
    }

    /// Whether another request can be numbered.
    pub fn can_begin(&self) -> (r: bool)
        ensures
            r == (self@.generation < u64::MAX),
    {
        self.generation < u64::MAX
    }

    /// Starts resolving a new selection, abandoning any request still in flight. Nothing, or a
    /// single directory, empties the preview at once; one file asks for its metadata; several
    /// entries ask for the metadata of each.
    pub fn begin(&mut self, selection: &Selection) -> (r: PreviewRequest)
        requires
            old(self).wf(),
            old(self)@.generation < u64::MAX,
        ensures
            final(self).wf(),
            final(self)@ == begun(old(self)@, selection@),
            match r {
                PreviewRequest::Nothing => !loads(selection@),
                PreviewRequest::File { generation, location } => generation == final(self)@.generation
                    && (selection@ matches SelectionView::Files { parent, files } && files.len() == 1
                    && location@ == files[0].0 && !files[0].1),
                PreviewRequest::Group { generation, locations } => generation == final(self)@.generation
                    && (selection@ matches SelectionView::Files { parent, files } && files.len() > 1
                    && locations@.map_values(|l: Location| l@) == files.map_values(
                    |f: (crate::location::LocationView, bool)| f.0,
                )),
            },
    {
        self.generation = self.generation + 1;
        let g = self.generation;
        match selection {
            Selection::Nothing => {
                self.state = PreviewState::Empty;
                PreviewRequest::Nothing
            },
            Selection::Files(FileSelection { parent, files }) => {
                let ghost fv = files@.map_values(|e: crate::panes::Entry| e@);
                if files.len() == 0 || (files.len() == 1 && files[0].is_dir) {
                    self.state = PreviewState::Empty;
                    PreviewRequest::Nothing
                } else if files.len() == 1 {
                    self.state = PreviewState::Loading(g);
                    PreviewRequest::File { generation: g, location: files[0].location.duplicate() }
                } else {
                    let mut locations: Vec<Location> = Vec::new();
                    let mut i: usize = 0;
                    while i < files.len()
                        invariant
                            i <= files@.len(),
                            fv == files@.map_values(|e: crate::panes::Entry| e@),
                            locations@.len() == i,
                            forall|j: int| 0 <= j < i ==> #[trigger] locations@[j]@ == fv[j].0,
                        decreases files.len() - i,
                    {
                        locations.push(files[i].location.duplicate());
                        i += 1;
                    }
                    assert(locations@.map_values(|l: Location| l@) =~= fv.map_values(
                        |f: (crate::location::LocationView, bool)| f.0,
                    ));
                    self.state = PreviewState::Loading(g);
                    PreviewRequest::Group { generation: g, locations }
                }
            },
        }
    }

    /// Takes the outcome of a single-file request of generation `generation`: its metadata and,
    /// for a text candidate, the start of its contents; or the reason it failed. A completion
    /// of any other generation than the one waited on is discarded, and `false` returned.
    pub fn complete_file(
        &mut self,
        generation: u64,
        outcome: Result<(FileMeta, Option<Vec<u8>>), String>,
    ) -> (r: bool)
        requires
            old(self).wf(),
        ensures
            final(self).wf(),
            r == accepts(old(self)@, generation),
            !r ==> final(self)@ == old(self)@,
            r ==> final(self)@.generation == old(self)@.generation && is_outcome(final(self)@.state),
            r ==> match outcome {
                Err(e) => final(self)@.state == PreviewState::Failed(e),
                Ok((meta, contents)) => final(self)@.state matches PreviewState::Resolved(
                    Preview::File(p),
                ) && previews_file(
                    p,
                    meta,
                    match contents {
                        Some(c) => Some(c@),
                        None => None,
                    },
                ),
            },
    {
        let waiting = match &self.state {
            PreviewState::Loading(g) => *g == generation,
            _ => false,
        };
        if !waiting {
            return false;
        }
        match outcome {
            Err(e) => {
                self.state = PreviewState::Failed(e);
            },
            Ok((meta, contents)) => {
                let class = classify(meta.mime.as_str(), contents.as_ref());
                let text = match contents {
                    Some(mut c) => if class == ContentClass::Text {
                        if c.len() > PREVIEW_BUFFER_SIZE {
                            c.truncate(PREVIEW_BUFFER_SIZE);
                        }
                        Some(c)
                    } else {
                        None
                    },
                    None => None,
                };
                self.state = PreviewState::Resolved(Preview::File(FilePreview { meta, class, text }));
            },
        }
        true
    }

    /// Takes the outcome of a group request of generation `generation`: the metadata of each
    /// entry, or the reason it failed. A completion of any other generation than the one waited
    /// on is discarded, and `false` returned.
    pub fn complete_group(&mut self, generation: u64, outcome: Result<Vec<EntryMeta>, String>) -> (r: bool)
        requires
            old(self).wf(),
        ensures
            final(self).wf(),
            r == accepts(old(self)@, generation),
            !r ==> final(self)@ == old(self)@,
            r ==> final(self)@.generation == old(self)@.generation && is_outcome(final(self)@.state),
            r ==> match outcome {
                Err(e) => final(self)@.state == PreviewState::Failed(e),
                Ok(entries) => final(self)@.state matches PreviewState::Resolved(Preview::Group(g))
                    && summarizes(entries@, g),
            },
    {
        let waiting = match &self.state {
            PreviewState::Loading(g) => *g == generation,
            _ => false,
        };
        if !waiting {
            return false;
        }
        match outcome {
            Err(e) => {
                self.state = PreviewState::Failed(e);
            },
            Ok(entries) => {
                self.state = PreviewState::Resolved(Preview::Group(summarize(&entries)));
            },
        }
        true
    }
}

/// A completion tagged with a generation older than the resolver's is never taken.
pub proof fn lemma_stale_discarded(r: ResolverView, g: u64, o: PreviewState)
    requires
        resolver_wf(r),
        g < r.generation,
    ensures
        !accepts(r, g),
        landed(r, g, o) == r,
{
}

/// Of two resolutions, the one started first never reaches the presentation once the second
/// has started: its completion is discarded when it arrives before the second's, and when it
/// arrives after.
pub proof fn lemma_latest_resolution_wins(
    r: ResolverView,
    first: SelectionView,
    second: SelectionView,
    o1: PreviewState,
    o2: PreviewState,
)
    requires
        resolver_wf(r),
        r.generation + 2 <= u64::MAX,
        is_outcome(o2),
    ensures
        ({
            let r1 = begun(r, first);
            let r2 = begun(r1, second);
            let a = r1.generation;
            let b = r2.generation;
            &&& a < b
            &&& landed(r2, a, o1) == r2
            &&& landed(landed(r2, a, o1), b, o2) == landed(r2, b, o2)
            &&& landed(landed(r2, b, o2), a, o1) == landed(r2, b, o2)
            &&& (loads(second) ==> landed(r2, b, o2).state == o2)
        }),
{
}

} // verus!
