//! Bookkeeping of file operations: the set of transfers in flight and their progress, the report
//! of a batch of trash operations, and the checks made before a dropped entry is moved.
use vstd::prelude::*;
use crate::describe::decimal;
use crate::location::{
    child_of, has_parent, lemma_path_round_trip, parent_of, path_names, path_text, valid_name,
    Location, LocationView, SEPARATOR,
};

verus! {

/// A progress update of one transfer.
#[derive(PartialEq, Eq, Structural, Clone, Copy, Debug)]
pub struct Progress {
    /// Identifies the transfer.
    pub id: u64,
    pub current: i64,
    pub total: i64,
}

impl Progress {
    /// Whether this is the last update that the transfer sends.
    pub fn is_complete(&self) -> (r: bool)
        ensures
            r == (self.current == self.total),
    {
        self.current == self.total
    }
}

/// One transfer in flight.
pub struct Operation {
    pub id: u64,
    pub description: String,
    pub current: i64,
    pub total: i64,
}

/// A transfer as a value.
pub struct OperationView {
    pub id: u64,
    pub description: Seq<char>,
    pub current: i64,
    pub total: i64,
}

impl View for Operation {
    type V = OperationView;

    open spec fn view(&self) -> OperationView {
        OperationView {
            id: self.id,
            description: self.description@,
            current: self.current,
            total: self.total,
        }
    }
}

/// The transfers in flight as a value: the next identifier to hand out, and the active
/// transfers in the order they began.
pub struct OperationsView {
    pub next_id: u64,
    pub active: Seq<OperationView>,
}

/// Every active transfer has an identifier handed out before, and no two share one.
pub open spec fn operations_wf(o: OperationsView) -> bool {
    &&& forall|i: int| 0 <= i < o.active.len() ==> #[trigger] o.active[i].id < o.next_id
    &&& forall|i: int, j: int|
        0 <= i < o.active.len() && 0 <= j < o.active.len() && i != j ==> #[trigger] o.active[i].id
            != #[trigger] o.active[j].id
}

/// The position of the active transfer `id`, if there is one.
pub open spec fn position_of(active: Seq<OperationView>, id: u64) -> Option<int> {
    if exists|i: int| 0 <= i < active.len() && #[trigger] active[i].id == id {
        Some(choose|i: int| 0 <= i < active.len() && #[trigger] active[i].id == id)
    } else {
        None
    }
}

/// The transfers in flight, each with a stable identifier.
pub struct Operations {
    next_id: u64,
    active: Vec<Operation>,
}

impl View for Operations {
    type V = OperationsView;

    closed spec fn view(&self) -> OperationsView {
        OperationsView { next_id: self.next_id, active: self.active@.map_values(|o: Operation| o@) }
    }
}

impl Operations {
    pub open spec fn wf(&self) -> bool {
        operations_wf(self@)
    }

    /// No transfer in flight.
    pub fn new() -> (r: Operations)
        ensures
            r.wf(),
            r@.next_id == 0,
            r@.active.len() == 0,
    {
        let r = Operations { next_id: 0, active: Vec::new() };
        assert(r@.active =~= Seq::<OperationView>::empty());
        r
    }

    /// The active transfers, in the order they began.
    pub fn active(&self) -> (r: &Vec<Operation>)
        ensures
            r@.map_values(|o: Operation| o@) == self@.active,
    {
        &self.active
    }

    /// Whether another transfer can get an identifier.
    pub fn can_begin(&self) -> (r: bool)
        ensures
            r == (self@.next_id < u64::MAX),
    {
        self.next_id < u64::MAX
    }

    /// Finds the active transfer `id`.
    fn find(&self, id: u64) -> (r: Option<usize>)
        requires
            self.wf(),
        ensures
            match r {
                Some(i) => position_of(self@.active, id) == Some(i as int),
                None => position_of(self@.active, id) is None,
            },
    {
        let ghost a = self@.active;
        let mut i: usize = 0;
        while i < self.active.len()
            invariant
                i <= self.active@.len(),
                a == self@.active,
                a.len() == self.active@.len(),
                operations_wf(self@),
                forall|j: int| 0 <= j < i ==> #[trigger] a[j].id != id,
            decreases self.active.len() - i,
        {
            if self.active[i].id == id {
                assert(a[i as int].id == id);
                let ghost k = choose|k: int| 0 <= k < a.len() && #[trigger] a[k].id == id;
                assert(k == i);
                return Some(i);
            }
            i += 1;
        }
        None
    }

    /// Registers a new transfer described by `description`, at no progress yet, and returns its
    /// identifier.
    pub fn begin(&mut self, description: String) -> (id: u64)
        requires
            old(self).wf(),
            old(self)@.next_id < u64::MAX,
        ensures
            final(self).wf(),
            id == old(self)@.next_id,
            position_of(old(self)@.active, id) is None,
            final(self)@.next_id == old(self)@.next_id + 1,
            final(self)@.active == old(self)@.active.push(
                OperationView { id, description: description@, current: 0, total: 1 },
            ),
    {
        let id = self.next_id;
        let ghost d = description@;
        self.active.push(Operation { id, description, current: 0, total: 1 });
        self.next_id = id + 1;
        assert(self@.active =~= old(self)@.active.push(
            OperationView { id, description: d, current: 0, total: 1 },
        ));
        id
    }

    /// Records a progress update. Returns whether the transfer it names is active; an update of
    /// any other changes nothing.
    pub fn update(&mut self, p: Progress) -> (r: bool)
        requires
            old(self).wf(),
        ensures
            final(self).wf(),
            r == (position_of(old(self)@.active, p.id) is Some),
            final(self)@.next_id == old(self)@.next_id,
            match position_of(old(self)@.active, p.id) {
                Some(i) => final(self)@.active == old(self)@.active.update(
                    i,
                    OperationView { current: p.current, total: p.total, ..old(self)@.active[i] },
                ),
                None => final(self)@.active == old(self)@.active,
            },
    {
        match self.find(p.id) {
            None => false,
            Some(i) => {
                let ghost before = self@.active;
                let mut op = self.active.remove(i);
                op.current = p.current;
                op.total = p.total;
                self.active.insert(i, op);
                assert(self@.active =~= before.update(
                    i as int,
                    OperationView { current: p.current, total: p.total, ..before[i as int] },
                ));
                true
            },
        }
    }

    /// Ends the transfer `id`, in success or failure: it leaves the active set. Returns the
    /// error to show, on failure.
    pub fn finish(&mut self, id: u64, outcome: Result<(), String>) -> (r: Option<String>)
        requires
            old(self).wf(),
        ensures
            final(self).wf(),
            final(self)@.next_id == old(self)@.next_id,
            match position_of(old(self)@.active, id) {
                Some(i) => final(self)@.active == old(self)@.active.remove(i),
                None => final(self)@.active == old(self)@.active,
            },
            match outcome {
                Ok(_) => r is None,
                Err(e) => r == Some(e),
            },
    {
        if let Some(i) = self.find(id) {
            let ghost before = self@.active;
            self.active.remove(i);
            assert(self@.active =~= before.remove(i as int));
        }
        match outcome {
            Ok(_) => None,
            Err(e) => Some(e),
        }
    }
}

/// The description of moving `file` to `destination`: "Moving 'a' to 'b'".
pub open spec fn move_text(file: Seq<char>, destination: Seq<char>) -> Seq<char> {
    "Moving '"@ + file + "' to '"@ + destination + "'"@
}

/// Describes a move of the file named `file` into the directory named `destination`; a name
/// that could not be learned is written "file" or "destination".
pub fn move_description(file: Option<&str>, destination: Option<&str>) -> (r: String)
    ensures
        r@ == move_text(
            match file {
                Some(f) => f@,
                None => "file"@,
            },
            match destination {
                Some(d) => d@,
                None => "destination"@,
            },
        ),
{
    let f = match file {
        Some(f) => f,
        None => "file",
    };
    let d = match destination {
        Some(d) => d,
        None => "destination",
    };
    let mut r = String::from_str("Moving '");
    r.append(f);
    r.append("' to '");
    r.append(d);
    r.append("'");
    r
}

/// The outcome of trashing one entry: its display name, and the error where it failed.
pub struct TrashOutcome {
    pub name: String,
    pub result: Result<(), String>,
}

/// What a batch of trash operations tells the user: one toast for all that succeeded, where
/// any did, and each error on its own.
pub struct TrashReport {
    pub toast: Option<String>,
    pub errors: Vec<String>,
}

/// The names of the entries that were trashed, in order.
pub open spec fn trashed(s: Seq<TrashOutcome>) -> Seq<Seq<char>>
    decreases s.len(),
{
    if s.len() == 0 {
        Seq::empty()
    } else if s.last().result is Ok {
        trashed(s.drop_last()).push(s.last().name@)
    } else {
        trashed(s.drop_last())
    }
}

/// The errors of the entries that could not be trashed, in order.
pub open spec fn trash_errors(s: Seq<TrashOutcome>) -> Seq<Seq<char>>
    decreases s.len(),
{
    if s.len() == 0 {
        Seq::empty()
    } else {
        match s.last().result {
            Ok(_) => trash_errors(s.drop_last()),
            Err(e) => trash_errors(s.drop_last()).push(e@),
        }
    }
}

/// The toast for the trashed entries `names`: none for none, the name of a single one, else
/// their number.
pub open spec fn trash_toast(names: Seq<Seq<char>>) -> Option<Seq<char>> {
    if names.len() == 0 {
        None
    } else if names.len() == 1 {
        Some("'"@ + names[0] + "' moved to trash"@)
    } else {
        Some(decimal(names.len()) + " files moved to trash"@)
    }
}

/// Reports a batch of trash operations: each failure is reported on its own, and the successes
/// together; neither stops the other.
pub fn trash_report(outcomes: &Vec<TrashOutcome>) -> (r: TrashReport)
    requires
        outcomes@.len() <= u64::MAX,
    ensures
        r.errors@.map_values(|e: String| e@) == trash_errors(outcomes@),
        match r.toast {
            Some(t) => trash_toast(trashed(outcomes@)) == Some(t@),
            None => trash_toast(trashed(outcomes@)) is None,
        },
{
    let mut errors: Vec<String> = Vec::new();
    let mut count: u64 = 0;
    let mut first: usize = 0;
    let mut i: usize = 0;
    while i < outcomes.len()
        invariant
            i <= outcomes@.len(),
            outcomes@.len() <= u64::MAX,
            count as int == trashed(outcomes@.subrange(0, i as int)).len(),
            count <= i,
            errors@.map_values(|e: String| e@) == trash_errors(outcomes@.subrange(0, i as int)),
            count >= 1 ==> first < i && outcomes@[first as int].result is Ok
                && trashed(outcomes@.subrange(0, i as int))[0] == outcomes@[first as int].name@,
        decreases outcomes.len() - i,
    {
        let ghost pre = outcomes@.subrange(0, i as int);
        let ghost next = outcomes@.subrange(0, i + 1);
        assert(next.drop_last() =~= pre);
        assert(next.last() == outcomes@[i as int]);
        let ghost before = errors@;
        match &outcomes[i].result {
            Ok(_) => {
                if count == 0 {
                    first = i;
                }
                count = count + 1;
            },
            Err(e) => {
                errors.push(e.clone());
                assert(errors@.map_values(|e: String| e@) =~= before.map_values(|e: String| e@).push(
                    outcomes@[i as int].result->Err_0@,
                ));
            },
        }
        i += 1;
    }
    assert(outcomes@.subrange(0, outcomes@.len() as int) =~= outcomes@);
    let toast = if count == 0 {
        None
    } else if count == 1 {
        let mut t = String::from_str("'");
        t.append(outcomes[first].name.as_str());
        t.append("' moved to trash");
        Some(t)
    } else {
        let mut t = crate::describe::count_words(count, "file");
        t.append(" moved to trash");
        Some(t)
    };
    proof {
        reveal_strlit("s");
        reveal_strlit(" files moved to trash");
        reveal_strlit(" moved to trash");
        reveal_strlit(" file");
        reveal_strlit(" ");
        reveal_strlit("file");
    }
    TrashReport { toast, errors }
}

/// Whether a drop target listing `dir` takes the dragged entry `file`: not when `file` already
/// lies directly in `dir`.
pub fn accepts_drop(file: &Location, dir: &Location) -> (r: bool)
    ensures
        r == !(has_parent(file@) && parent_of(file@) == dir@),
{
    match file.parent() {
        Some(p) => !p.same_as(dir),
        None => true,
    }
}

/// Where a dropped `file` is moved into the directory `dir`: the child of `dir` with the file's
/// name. `None` when there is nothing to move: `file` has no name, or is already there.
pub fn handle_drop(file: &Location, dir: &Location) -> (r: Option<Location>)
    ensures
        match r {
            Some(d) => has_parent(file@) && d@ == child_of(dir@, file@.names.last()) && d@ != file@,
            None => !has_parent(file@) || child_of(dir@, file@.names.last()) == file@,
        },
{
    match file.name() {
        None => None,
        Some(n) => {
            let d = dir.child(&n);
            if d.same_as(file) {
                None
            } else {
                Some(d)
            }
        },
    }
}

/// Why an entry could not be restored from the trash.
#[derive(PartialEq, Eq, Structural, Clone, Copy, Debug)]
pub enum RestoreError {
    /// The trash recorded no original path for the entry.
    MissingOriginalPath,
    /// The recorded original path is not absolute.
    BadOriginalPath,
}

/// The address space of local files.
pub open spec fn file_scheme() -> Seq<u8> {
    seq![102u8, 105u8, 108u8, 101u8]
}

/// Where an entry whose recorded original path is `original` goes back to.
pub open spec fn restored_from(original: Option<Seq<u8>>) -> Result<LocationView, RestoreError> {
    match original {
        None => Err(RestoreError::MissingOriginalPath),
        Some(p) => if p.len() == 0 || p[0] != SEPARATOR {
            Err(RestoreError::BadOriginalPath)
        } else {
            Ok(LocationView { scheme: file_scheme(), names: path_names(p) })
        },
    }
}

/// The location that a trashed entry is restored to, read from the original path that the
/// trash recorded for it.
pub fn restore_target(original: Option<&Vec<u8>>) -> (r: Result<Location, RestoreError>)
    ensures
        match r {
            Ok(l) => restored_from(
                match original {
                    Some(p) => Some(p@),
                    None => None,
                },
            ) == Ok::<LocationView, RestoreError>(l@),
            Err(e) => restored_from(
                match original {
                    Some(p) => Some(p@),
                    None => None,
                },
            ) == Err::<LocationView, RestoreError>(e),
        },
{
    match original {
        None => Err(RestoreError::MissingOriginalPath),
        Some(p) => {
            let scheme: Vec<u8> = vec![102u8, 105u8, 108u8, 101u8];
            assert(scheme@ =~= file_scheme());
            match Location::from_path(&scheme, p) {
                None => Err(RestoreError::BadOriginalPath),
                Some(l) => Ok(l),
            }
        },
    }
}

/// Trashing a local entry records its path, and restoring it returns it to the location read
/// back from that record: the entry's own location.
pub proof fn lemma_trash_restore_round_trip(e: LocationView)
    requires
        e.scheme == file_scheme(),
        forall|i: int| 0 <= i < e.names.len() ==> valid_name(#[trigger] e.names[i]),
    ensures
        restored_from(Some(path_text(e.names))) == Ok::<LocationView, RestoreError>(e),
{
    lemma_path_round_trip(e.names);
}

} // verus!
