//! The stack of open directory panes, kept in step with the selection.
use vstd::prelude::*;
use crate::location::{
    ascents, child_of, descents, diff, is_ancestor_or_self, lemma_shared_len_bounds,
    parent_of, path_diff, shared_len, steps_view, Location, LocationView, Step, StepView,
};

verus! {

/// One selected entry: where it is, and whether it is a directory.
pub struct Entry {
    pub location: Location,
    pub is_dir: bool,
}

/// One or more selected entries, all children of `parent`.
pub struct FileSelection {
    /// The shared parent of the selected entries.
    pub parent: Location,
    /// The selected entries.
    pub files: Vec<Entry>,
}

/// What the user has selected in the deepest pane.
pub enum Selection {
    /// Nothing is selected.
    Nothing,
    Files(FileSelection),
}

/// A selection as a value.
pub enum SelectionView {
    Nothing,
    Files { parent: LocationView, files: Seq<(LocationView, bool)> },
}

impl View for Entry {
    type V = (LocationView, bool);

    open spec fn view(&self) -> (LocationView, bool) {
        (self.location@, self.is_dir)
    }
}

impl View for Selection {
    type V = SelectionView;

    open spec fn view(&self) -> SelectionView {
        match self {
            Selection::Nothing => SelectionView::Nothing,
            Selection::Files(FileSelection { parent, files }) => SelectionView::Files {
                parent: parent@,
                files: files@.map_values(|e: Entry| e@),
            },
        }
    }
}

/// The location that the panes must reach for a file selection, and whether it is a directory:
/// the entry itself when exactly one is selected, else the shared parent.
pub open spec fn target_of(parent: LocationView, files: Seq<(LocationView, bool)>) -> (LocationView, bool) {
    if files.len() == 1 {
        files[0]
    } else {
        (parent, true)
    }
}

/// Why a selection could not be applied to the panes. Either means the selection does not fit
/// the open panes; the panes are then left as they were.
#[derive(PartialEq, Eq, Structural, Clone, Copy, Debug)]
pub enum SyncError {
    /// The target lies in another address space than the open panes.
    NotRelated,
    /// Reaching the target would close the root pane.
    PastRoot,
}

/// The panes form a chain: each pane's directory is a direct child of the one before, written
/// as the prefixes of the deepest pane's names.
pub open spec fn is_chain(p: Seq<LocationView>) -> bool {
    &&& p.len() >= 1
    &&& p.last().names.len() + 1 >= p.len()
    &&& forall|j: int| 0 <= j < p.len() ==> {
        &&& (#[trigger] p[j]).scheme == p.last().scheme
        &&& p[j].names == p.last().names.subrange(0, p.last().names.len() - (p.len() - 1 - j))
    }
}

/// What one step does to the panes: an ascent closes the deepest pane (never the root pane),
/// a descent opens the named child when `open` holds.
pub open spec fn step_panes(p: Seq<LocationView>, st: StepView, open: bool) -> Option<Seq<LocationView>> {
    match st {
        StepView::Ascend => if p.len() > 1 {
            Some(p.drop_last())
        } else {
            None
        },
        StepView::Descend(n) => if open {
            Some(p.push(child_of(p.last(), n)))
        } else {
            Some(p)
        },
    }
}

/// The panes after walking `steps` in order. Every descent opens a pane but the last one when
/// the target is not a directory: that step names the selected file itself.
pub open spec fn walk(p: Seq<LocationView>, steps: Seq<StepView>, target_is_dir: bool) -> Option<Seq<LocationView>>
    decreases steps.len(),
{
    if steps.len() == 0 {
        Some(p)
    } else {
        match step_panes(p, steps[0], steps.len() > 1 || target_is_dir) {
            None => None,
            Some(q) => walk(q, steps.drop_first(), target_is_dir),
        }
    }
}

/// The panes after a selection, or the error that leaves them unchanged.
pub open spec fn synced(p: Seq<LocationView>, s: SelectionView) -> Result<Seq<LocationView>, SyncError> {
    match s {
        SelectionView::Nothing => Ok(p),
        SelectionView::Files { parent, files } => {
            let (t, is_dir) = target_of(parent, files);
            match path_diff(p.last(), t) {
                None => Err(SyncError::NotRelated),
                Some(steps) => match walk(p, steps, is_dir) {
                    None => Err(SyncError::PastRoot),
                    Some(q) => Ok(q),
                },
            }
        },
    }
}

/// The ordered stack of open directory panes, from the root pane to the deepest one.
pub struct PaneStack {
    panes: Vec<Location>,
}

impl View for PaneStack {
    type V = Seq<LocationView>;

    closed spec fn view(&self) -> Seq<LocationView> {
        self.panes@.map_values(|l: Location| l@)
    }
}

/// Copies a list of locations.
fn copy_locations(v: &Vec<Location>) -> (r: Vec<Location>)
    ensures
        r@.map_values(|l: Location| l@) == v@.map_values(|l: Location| l@),
{
    let mut r: Vec<Location> = Vec::new();
    let mut i: usize = 0;
    while i < v.len()
        invariant
            i <= v@.len(),
            r@.len() == i,
            forall|j: int| 0 <= j < i ==> #[trigger] r@[j]@ == v@[j]@,
        decreases v.len() - i,
    {
        r.push(v[i].duplicate());
        i += 1;
    }
    assert(r@.map_values(|l: Location| l@) =~= v@.map_values(|l: Location| l@));
    r
}

impl PaneStack {
    pub open spec fn wf(&self) -> bool {
        is_chain(self@)
    }

    /// A stack holding the one pane `root`.
    pub fn new(root: Location) -> (r: PaneStack)
        ensures
            r.wf(),
            r@ == seq![root@],
    {
        let r = PaneStack { panes: vec![root] };
        assert(r@ =~= seq![root@]);
        assert(r@.last().names.subrange(0, r@.last().names.len() as int) =~= r@.last().names);
        r
    }

    /// The open panes' directories, root first.
    pub fn panes(&self) -> (r: &Vec<Location>)
        ensures
            r@.map_values(|l: Location| l@) == self@,
    {
        &self.panes
    }

    /// The directory of the deepest pane.
    pub fn deepest(&self) -> (r: &Location)
        requires
            self.wf(),
        ensures
            r@ == self@.last(),
    {
        &self.panes[self.panes.len() - 1]
    }

    /// Replaces every pane by one pane listing `root`.
    pub fn new_root(&mut self, root: Location)
        ensures
            final(self).wf(),
            final(self)@ == seq![root@],
    {
        *self = PaneStack::new(root);
    }

    /// Brings the panes in step with `selection`: the steps from the deepest pane to the
    /// selection's target are walked in order, closing a pane for each ascent and opening one
    /// for each directory descended into. A selection of nothing changes nothing. On an error
    /// the panes are left as they were.
    pub fn apply_selection(&mut self, selection: &Selection) -> (r: Result<(), SyncError>)
        requires
            old(self).wf(),
        ensures
            final(self).wf(),
            r is Ok <==> synced(old(self)@, selection@) is Ok,
            r matches Err(e) ==> synced(old(self)@, selection@) == Err::<Seq<LocationView>, SyncError>(e)
                && final(self)@ == old(self)@,
            r is Ok ==> synced(old(self)@, selection@) == Ok::<Seq<LocationView>, SyncError>(final(self)@),
    {
        let (target, target_is_dir) = match selection {
            Selection::Nothing => return Ok(()),
            Selection::Files(FileSelection { parent, files }) => if files.len() == 1 {
                (&files[0].location, files[0].is_dir)
            } else {
                (parent, true)
            },
        };
        let steps = match diff(self.deepest(), target) {
            Err(_) => return Err(SyncError::NotRelated),
            Ok(steps) => steps,
        };
        let ghost all = steps_view(steps@);
        let ghost start = self@;
        proof {
            if let Selection::Files(FileSelection { parent, files }) = selection {
                assert(target_of(parent@, files@.map_values(|e: Entry| e@)) == (target@, target_is_dir));
            }
            assert(path_diff(start.last(), target@) == Some(all));
            assert(synced(start, selection@) == match walk(start, all, target_is_dir) {
                None => Err(SyncError::PastRoot),
                Some(q) => Ok::<Seq<LocationView>, SyncError>(q),
            });
        }
        let mut panes = copy_locations(&self.panes);
        let mut i: usize = 0;
        assert(all.subrange(0, all.len() as int) =~= all);
        while i < steps.len()
            invariant
                i <= steps@.len(),
                self@ == start,
                is_chain(start),
                synced(start, selection@) == match walk(start, all, target_is_dir) {
                    None => Err(SyncError::PastRoot),
                    Some(q) => Ok::<Seq<LocationView>, SyncError>(q),
                },
                all == steps_view(steps@),
                is_chain(panes@.map_values(|l: Location| l@)),
                walk(start, all, target_is_dir) == walk(
                    panes@.map_values(|l: Location| l@),
                    all.subrange(i as int, all.len() as int),
                    target_is_dir,
                ),
            decreases steps.len() - i,
        {
            let ghost cur = panes@.map_values(|l: Location| l@);
            let ghost rest = all.subrange(i as int, all.len() as int);
            assert(rest.drop_first() =~= all.subrange(i + 1, all.len() as int));
            assert(rest[0] == steps@[i as int]@);
            let open = i + 1 < steps.len() || target_is_dir;
            match &steps[i] {
                Step::Ascend => {
                    if panes.len() <= 1 {
                        assert(walk(cur, rest, target_is_dir) is None);
                        return Err(SyncError::PastRoot);
                    }
                    panes.pop();
                    assert(panes@.map_values(|l: Location| l@) =~= cur.drop_last());
                    proof {
                        lemma_chain_drop_last(cur);
                    }
                },
                Step::Descend(name) => {
                    if open {
                        let next = panes[panes.len() - 1].child(name);
                        panes.push(next);
                        assert(panes@.map_values(|l: Location| l@) =~= cur.push(child_of(cur.last(), name@)));
                        proof {
                            lemma_chain_push(cur, name@);
                        }
                    }
                },
            }
            i += 1;
        }
        assert(all.subrange(all.len() as int, all.len() as int) =~= Seq::<StepView>::empty());
        self.panes = panes;
        Ok(())
    }
}

/// Closing the deepest pane of a chain of two or more leaves a chain.
proof fn lemma_chain_drop_last(p: Seq<LocationView>)
    requires
        is_chain(p),
        p.len() > 1,
    ensures
        is_chain(p.drop_last()),
{
    let q = p.drop_last();
    let l = p.last();
    let m = q.last();
    assert(m == p[p.len() - 2]);
    assert(m.names == l.names.subrange(0, l.names.len() - 1));
    assert forall|j: int| 0 <= j < q.len() implies {
        &&& (#[trigger] q[j]).scheme == q.last().scheme
        &&& q[j].names == q.last().names.subrange(0, q.last().names.len() - (q.len() - 1 - j))
    } by {
        assert(q[j] == p[j]);
        assert(m.names.subrange(0, m.names.len() - (q.len() - 1 - j)) =~= l.names.subrange(
            0,
            l.names.len() - (p.len() - 1 - j),
        ));
    }
}

/// Opening a child of the deepest pane of a chain leaves a chain.
proof fn lemma_chain_push(p: Seq<LocationView>, name: Seq<u8>)
    requires
        is_chain(p),
    ensures
        is_chain(p.push(child_of(p.last(), name))),
{
    let l = p.last();
    let c = child_of(l, name);
    let q = p.push(c);
    assert forall|j: int| 0 <= j < q.len() implies {
        &&& (#[trigger] q[j]).scheme == q.last().scheme
        &&& q[j].names == q.last().names.subrange(0, q.last().names.len() - (q.len() - 1 - j))
    } by {
        if j < p.len() {
            assert(q[j] == p[j]);
            assert(c.names.subrange(0, c.names.len() - (q.len() - 1 - j)) =~= l.names.subrange(
                0,
                l.names.len() - (p.len() - 1 - j),
            ));
        } else {
            assert(c.names.subrange(0, c.names.len() as int) =~= c.names);
        }
    }
}

/// An event that the panes react to, as a value.
pub enum PaneEventView {
    NewSelection(SelectionView),
    NewRoot(LocationView),
}

/// An event that the panes react to: the selection changed, or a new root was chosen.
pub enum PaneEvent {
    NewSelection(Selection),
    NewRoot(Location),
}

impl View for PaneEvent {
    type V = PaneEventView;

    open spec fn view(&self) -> PaneEventView {
        match self {
            PaneEvent::NewSelection(s) => PaneEventView::NewSelection(s@),
            PaneEvent::NewRoot(l) => PaneEventView::NewRoot(l@),
        }
    }
}

/// The panes after one event; a selection that does not fit leaves them as they were.
pub open spec fn after_event(p: Seq<LocationView>, e: PaneEventView) -> Seq<LocationView> {
    match e {
        PaneEventView::NewSelection(s) => match synced(p, s) {
            Ok(q) => q,
            Err(_) => p,
        },
        PaneEventView::NewRoot(l) => seq![l],
    }
}

/// The panes after a sequence of events, taken in order.
pub open spec fn after_events(p: Seq<LocationView>, es: Seq<PaneEventView>) -> Seq<LocationView>
    decreases es.len(),
{
    if es.len() == 0 {
        p
    } else {
        after_events(after_event(p, es[0]), es.drop_first())
    }
}

impl PaneStack {
    /// Reacts to one event: a new selection is applied as `apply_selection` does, a new root
    /// replaces every pane.
    pub fn handle(&mut self, event: &PaneEvent) -> (r: Result<(), SyncError>)
        requires
            old(self).wf(),
        ensures
            final(self).wf(),
            final(self)@ == after_event(old(self)@, event@),
            r matches Err(e) ==> event@ matches PaneEventView::NewSelection(s)
                && synced(old(self)@, s) == Err::<Seq<LocationView>, SyncError>(e),
            r is Ok ==> (event@ matches PaneEventView::NewSelection(s) ==> synced(old(self)@, s) is Ok),
    {
        match event {
            PaneEvent::NewSelection(s) => self.apply_selection(s),
            PaneEvent::NewRoot(l) => {
                self.new_root(l.duplicate());
                Ok(())
            },
        }
    }
}

/// A chain with `u` fewer panes than it has is what `u` ascents leave of it.
proof fn lemma_walk_ascents(p: Seq<LocationView>, u: nat, rest: Seq<StepView>, dir: bool)
    requires
        u < p.len(),
    ensures
        walk(p, ascents(u) + rest, dir) == walk(p.subrange(0, p.len() - u), rest, dir),
    decreases u,
{
    let s = ascents(u) + rest;
    if u > 0 {
        assert(s[0] == StepView::Ascend);
        assert(s.drop_first() =~= ascents((u - 1) as nat) + rest);
        lemma_walk_ascents(p.drop_last(), (u - 1) as nat, rest, dir);
        assert(p.drop_last().subrange(0, p.len() - 1 - (u - 1)) =~= p.subrange(0, p.len() - u));
    } else {
        assert(s =~= rest);
        assert(p.subrange(0, p.len() as int) =~= p);
    }
}

/// Descending through `names` ends in the last of them, or in the one before it when the
/// target is not a directory.
proof fn lemma_walk_descents(p: Seq<LocationView>, names: Seq<Seq<u8>>, dir: bool)
    requires
        p.len() >= 1,
        names.len() >= 1,
    ensures
        walk(p, descents(names), dir) matches Some(q) && q.last() == (LocationView {
            scheme: p.last().scheme,
            names: p.last().names + if dir {
                names
            } else {
                names.drop_last()
            },
        }),
    decreases names.len(),
{
    let s = descents(names);
    assert(s[0] == StepView::Descend(names[0]));
    if names.len() == 1 {
        assert(s.drop_first() =~= Seq::<StepView>::empty());
        if dir {
            let q = p.push(child_of(p.last(), names[0]));
            assert(walk(q, s.drop_first(), dir) == Some(q));
            assert(walk(p, s, dir) == Some(q));
            assert(p.last().names.push(names[0]) =~= p.last().names + names);
        } else {
            assert(walk(p, s.drop_first(), dir) == Some(p));
            assert(p.last().names =~= p.last().names + names.drop_last());
        }
    } else {
        let q = p.push(child_of(p.last(), names[0]));
        assert(s.drop_first() =~= descents(names.drop_first()));
        lemma_walk_descents(q, names.drop_first(), dir);
        if dir {
            assert(q.last().names + names.drop_first() =~= p.last().names + names);
        } else {
            assert(q.last().names + names.drop_first().drop_last() =~= p.last().names
                + names.drop_last());
        }
    }
}

/// Walking steps from a chain leaves a chain.
proof fn lemma_walk_chain(p: Seq<LocationView>, steps: Seq<StepView>, dir: bool)
    requires
        is_chain(p),
    ensures
        walk(p, steps, dir) matches Some(q) ==> is_chain(q),
    decreases steps.len(),
{
    if steps.len() > 0 {
        let open = steps.len() > 1 || dir;
        match steps[0] {
            StepView::Ascend => if p.len() > 1 {
                lemma_chain_drop_last(p);
                lemma_walk_chain(p.drop_last(), steps.drop_first(), dir);
            },
            StepView::Descend(n) => if open {
                lemma_chain_push(p, n);
                lemma_walk_chain(p.push(child_of(p.last(), n)), steps.drop_first(), dir);
            } else {
                lemma_walk_chain(p, steps.drop_first(), dir);
            },
        }
    }
}

/// Applying a file selection to the panes leaves the deepest pane listing the target when it is
/// a directory, and the target's parent when it is a file (a file that is not itself one of the
/// open directories or their ancestors).
pub proof fn lemma_sync_reaches_target(
    p: Seq<LocationView>,
    parent: LocationView,
    files: Seq<(LocationView, bool)>,
)
    requires
        is_chain(p),
        synced(p, SelectionView::Files { parent, files }) is Ok,
        target_of(parent, files).1 || !is_ancestor_or_self(target_of(parent, files).0, p.last()),
    ensures
        synced(p, SelectionView::Files { parent, files }) matches Ok(q) && is_chain(q) && q.last() == if target_of(
            parent,
            files,
        ).1 {
            target_of(parent, files).0
        } else {
            parent_of(target_of(parent, files).0)
        },
{
    let (t, dir) = target_of(parent, files);
    let l = p.last();
    let k = shared_len(l.names, t.names);
    lemma_shared_len_bounds(l.names, t.names, 0);
    let u = (l.names.len() - k) as nat;
    let rest = t.names.subrange(k as int, t.names.len() as int);
    let steps = ascents(u) + descents(rest);
    assert(path_diff(l, t) == Some(steps));
    lemma_walk_chain(p, steps, dir);
    if u >= p.len() {
        // the walk would close the root pane, which `synced` being `Ok` rules out
        lemma_walk_past_root(p, u, descents(rest), dir);
    }
    lemma_walk_ascents(p, u, descents(rest), dir);
    let c = p.subrange(0, p.len() - u);
    assert(c.last() == p[p.len() - 1 - u]);
    assert(c.last().names =~= t.names.subrange(0, k as int));
    if rest.len() == 0 {
        assert(t.names.subrange(0, k as int) =~= t.names);
        assert(l.names.subrange(0, t.names.len() as int) =~= t.names);
        assert(descents(rest) =~= Seq::<StepView>::empty());
    } else {
        lemma_walk_descents(c, rest, dir);
        if dir {
            assert(t.names.subrange(0, k as int) + rest =~= t.names);
        } else {
            assert(t.names.subrange(0, k as int) + rest.drop_last() =~= t.names.drop_last());
        }
    }
}

/// Ascending as many times as there are panes, or more, closes the root pane: the walk fails.
proof fn lemma_walk_past_root(p: Seq<LocationView>, u: nat, rest: Seq<StepView>, dir: bool)
    requires
        p.len() >= 1,
        u >= p.len(),
    ensures
        walk(p, ascents(u) + rest, dir) is None,
    decreases p.len(),
{
    let s = ascents(u) + rest;
    assert(s[0] == StepView::Ascend);
    if p.len() > 1 {
        assert(s.drop_first() =~= ascents((u - 1) as nat) + rest);
        lemma_walk_past_root(p.drop_last(), (u - 1) as nat, rest, dir);
    }
}

/// Starting from any well-formed stack, such as a single pane, the panes stay a chain, and so
/// are never empty, whatever sequence of selections and root changes follows.
pub proof fn lemma_events_keep_panes(p: Seq<LocationView>, es: Seq<PaneEventView>)
    requires
        is_chain(p),
    ensures
        is_chain(after_events(p, es)),
        after_events(p, es).len() >= 1,
    decreases es.len(),
{
    if es.len() > 0 {
        let q = after_event(p, es[0]);
        match es[0] {
            PaneEventView::NewSelection(s) => {
                if let SelectionView::Files { parent, files } = s {
                    let (t, dir) = target_of(parent, files);
                    if let Some(steps) = path_diff(p.last(), t) {
                        lemma_walk_chain(p, steps, dir);
                    }
                }
            },
            PaneEventView::NewRoot(l) => {
                assert(seq![l].last().names.subrange(0, l.names.len() as int) =~= l.names);
            },
        }
        lemma_events_keep_panes(q, es.drop_first());
    }
}

} // verus!
