//! Locations of filesystem entries, and the steps that lead from one to another.
use vstd::prelude::*;

verus! {

/// A location as a value: the address space it lives in (a URI scheme such as `file` or
/// `trash`), and the names that lead from that space's root down to the entry.
pub struct LocationView {
    pub scheme: Seq<u8>,
    pub names: Seq<Seq<u8>>,
}

/// One step of a path difference, as a value.
pub enum StepView {
    Ascend,
    Descend(Seq<u8>),
}

/// The identifier of a filesystem entry.
///
/// `scheme` names the address space (`file`, `trash`, ...); `names` are the components from
/// that space's root down to the entry, so the root itself has no names.
pub struct Location {
    pub scheme: Vec<u8>,
    pub names: Vec<Vec<u8>>,
}

/// One step of a path difference: go to the parent, or enter the named child.
pub enum Step {
    Ascend,
    Descend(Vec<u8>),
}

/// The target of a difference cannot be reached from its origin.
#[derive(PartialEq, Eq, Structural, Clone, Copy, Debug)]
pub enum NotRelated {
    NotRelated,
}

impl View for Location {
    type V = LocationView;

    open spec fn view(&self) -> LocationView {
        LocationView { scheme: self.scheme@, names: self.names@.map_values(|n: Vec<u8>| n@) }
    }
}

impl View for Step {
    type V = StepView;

    open spec fn view(&self) -> StepView {
        match self {
            Step::Ascend => StepView::Ascend,
            Step::Descend(n) => StepView::Descend(n@),
        }
    }
}

/// The values of a sequence of steps.
pub open spec fn steps_view(s: Seq<Step>) -> Seq<StepView> {
    s.map_values(|st: Step| st@)
}

/// `p` is `a` or one of its ancestors.
pub open spec fn is_ancestor_or_self(p: LocationView, a: LocationView) -> bool {
    &&& p.scheme == a.scheme
    &&& p.names.len() <= a.names.len()
    &&& a.names.subrange(0, p.names.len() as int) == p.names
}

/// `c` is the child of `a` named `name`.
pub open spec fn child_of(a: LocationView, name: Seq<u8>) -> LocationView {
    LocationView { scheme: a.scheme, names: a.names.push(name) }
}

/// `a` has a parent: it is not the root of its address space.
pub open spec fn has_parent(a: LocationView) -> bool {
    a.names.len() > 0
}

/// The parent of `a`.
pub open spec fn parent_of(a: LocationView) -> LocationView {
    LocationView { scheme: a.scheme, names: a.names.drop_last() }
}

/// The number of leading names that `a` and `b` share, counting from index `i` on, given
/// that the first `i` are shared.
pub open spec fn shared_from(a: Seq<Seq<u8>>, b: Seq<Seq<u8>>, i: nat) -> nat
    decreases a.len() - i,
{
    if i < a.len() && i < b.len() && a[i as int] == b[i as int] {
        shared_from(a, b, i + 1)
    } else {
        i
    }
}

/// The length of the longest shared prefix of two name sequences.
pub open spec fn shared_len(a: Seq<Seq<u8>>, b: Seq<Seq<u8>>) -> nat {
    shared_from(a, b, 0)
}

/// `n` ascend steps.
pub open spec fn ascents(n: nat) -> Seq<StepView> {
    Seq::new(n, |i: int| StepView::Ascend)
}

/// One descend step for each name.
pub open spec fn descents(names: Seq<Seq<u8>>) -> Seq<StepView> {
    names.map_values(|n: Seq<u8>| StepView::Descend(n))
}

/// The minimal step sequence from `from` to `to`: up to their nearest common ancestor, then
/// down through the rest of `to`'s names. Locations in different address spaces share no
/// ancestor.
pub open spec fn path_diff(from: LocationView, to: LocationView) -> Option<Seq<StepView>> {
    if from.scheme != to.scheme {
        None
    } else {
        let k = shared_len(from.names, to.names);
        Some(ascents((from.names.len() - k) as nat) + descents(to.names.subrange(k as int, to.names.len() as int)))
    }
}

/// Compares two byte strings.
pub fn bytes_eq(a: &Vec<u8>, b: &Vec<u8>) -> (r: bool)
    ensures
        r == (a@ == b@),
{
    if a.len() != b.len() {
        return false;
    }
    let mut i: usize = 0;
    while i < a.len()
        invariant
            a@.len() == b@.len(),
            i <= a@.len(),
            a@.subrange(0, i as int) == b@.subrange(0, i as int),
        decreases a.len() - i,
    {
        if a[i] != b[i] {
            assert(a@[i as int] != b@[i as int]);
            return false;
        }
        assert(a@.subrange(0, i + 1) == a@.subrange(0, i as int).push(a@[i as int]));
        assert(b@.subrange(0, i + 1) == b@.subrange(0, i as int).push(b@[i as int]));
        i += 1;
    }
    assert(a@ == a@.subrange(0, a@.len() as int));
    assert(b@ == b@.subrange(0, b@.len() as int));
    true
}

/// Copies a byte string.
pub fn copy_bytes(a: &Vec<u8>) -> (r: Vec<u8>)
    ensures
        r@ == a@,
{
    let mut r: Vec<u8> = Vec::new();
    let mut i: usize = 0;
    while i < a.len()
        invariant
            i <= a@.len(),
            r@ == a@.subrange(0, i as int),
        decreases a.len() - i,
    {
        r.push(a[i]);
        assert(a@.subrange(0, i + 1) == a@.subrange(0, i as int).push(a@[i as int]));
        i += 1;
    }
    assert(a@ == a@.subrange(0, a@.len() as int));
    r
}

impl Location {
    /// The root of the address space `scheme`.
    pub fn root(scheme: &Vec<u8>) -> (r: Location)
        ensures
            r@.scheme == scheme@,
            r@.names == Seq::<Seq<u8>>::empty(),
    {
        let r = Location { scheme: copy_bytes(scheme), names: Vec::new() };
        assert(r@.names =~= Seq::<Seq<u8>>::empty());
        r
    }

    /// A location equal to this one.
    pub fn duplicate(&self) -> (r: Location)
        ensures
            r@ == self@,
    {
        let mut names: Vec<Vec<u8>> = Vec::new();
        let mut i: usize = 0;
        while i < self.names.len()
            invariant
                i <= self.names@.len(),
                names@.len() == i,
                forall|j: int| 0 <= j < i ==> #[trigger] names@[j]@ == self.names@[j]@,
            decreases self.names.len() - i,
        {
            names.push(copy_bytes(&self.names[i]));
            i += 1;
        }
        let r = Location { scheme: copy_bytes(&self.scheme), names };
        assert(r@.names =~= self@.names);
        r
    }

    /// Whether two locations identify the same entry.
    pub fn same_as(&self, other: &Location) -> (r: bool)
        ensures
            r == (self@ == other@),
    {
        if !bytes_eq(&self.scheme, &other.scheme) {
            return false;
        }
        if self.names.len() != other.names.len() {
            assert(self@.names.len() != other@.names.len());
            return false;
        }
        let mut i: usize = 0;
        while i < self.names.len()
            invariant
                self.names@.len() == other.names@.len(),
                i <= self.names@.len(),
                forall|j: int| 0 <= j < i ==> #[trigger] self@.names[j] == other@.names[j],
            decreases self.names.len() - i,
        {
            if !bytes_eq(&self.names[i], &other.names[i]) {
                assert(self@.names[i as int] != other@.names[i as int]);
                return false;
            }
            i += 1;
        }
        assert(self@.names =~= other@.names);
        true
    }

    /// The child of this location named `name`.
    pub fn child(&self, name: &Vec<u8>) -> (r: Location)
        ensures
            r@ == child_of(self@, name@),
    {
        let mut r = self.duplicate();
        r.names.push(copy_bytes(name));
        assert(r@.names =~= self@.names.push(name@));
        r
    }

    /// The parent of this location, or `None` at the root of its address space.
    pub fn parent(&self) -> (r: Option<Location>)
        ensures
            r is None <==> !has_parent(self@),
            r matches Some(p) ==> p@ == parent_of(self@),
    {
        if self.names.len() == 0 {
            return None;
        }
        let mut r = self.duplicate();
        r.names.pop();
        assert(r@.names =~= self@.names.drop_last());
        Some(r)
    }

    /// The last name of this location, or `None` at the root of its address space.
    pub fn name(&self) -> (r: Option<Vec<u8>>)
        ensures
            r is None <==> !has_parent(self@),
            r matches Some(n) ==> n@ == self@.names.last(),
    {
        if self.names.len() == 0 {
            None
        } else {
            Some(copy_bytes(&self.names[self.names.len() - 1]))
        }
    }

    /// Whether `self` is `other` or one of its ancestors.
    pub fn is_ancestor_or_self_of(&self, other: &Location) -> (r: bool)
        ensures
            r == is_ancestor_or_self(self@, other@),
    {
        if !bytes_eq(&self.scheme, &other.scheme) || self.names.len() > other.names.len() {
            return false;
        }
        let mut i: usize = 0;
        while i < self.names.len()
            invariant
                self.names@.len() <= other.names@.len(),
                i <= self.names@.len(),
                forall|j: int| 0 <= j < i ==> #[trigger] self@.names[j] == other@.names[j],
            decreases self.names.len() - i,
        {
            if !bytes_eq(&self.names[i], &other.names[i]) {
                assert(other@.names.subrange(0, self@.names.len() as int)[i as int] != self@.names[i as int]);
                return false;
            }
            i += 1;
        }
        assert(other@.names.subrange(0, self@.names.len() as int) =~= self@.names);
        true
    }
}

/// Unfolding `shared_from` one step at a time from `i` reaches the same count.
proof fn lemma_shared_from_prefix(a: Seq<Seq<u8>>, b: Seq<Seq<u8>>, i: nat, k: nat)
    requires
        i <= k,
        k <= a.len(),
        k <= b.len(),
        forall|j: int| i <= j < k ==> a[j] == b[j],
    ensures
        shared_from(a, b, i) == shared_from(a, b, k),
    decreases k - i,
{
    if i < k {
        lemma_shared_from_prefix(a, b, i + 1, k);
    }
}

/// Two sequences that agree on their first `k` names and then part (or end) share exactly `k`.
proof fn lemma_shared_len_is(a: Seq<Seq<u8>>, b: Seq<Seq<u8>>, k: nat)
    requires
        k <= a.len(),
        k <= b.len(),
        forall|j: int| 0 <= j < k ==> a[j] == b[j],
        k == a.len() || k == b.len() || a[k as int] != b[k as int],
    ensures
        shared_len(a, b) == k,
{
    lemma_shared_from_prefix(a, b, 0, k);
}

/// `shared_len` is at most either length, and the names before it agree.
pub proof fn lemma_shared_len_bounds(a: Seq<Seq<u8>>, b: Seq<Seq<u8>>, i: nat)
    requires
        i <= a.len(),
        i <= b.len(),
        forall|j: int| 0 <= j < i ==> a[j] == b[j],
    ensures
        i <= shared_from(a, b, i) <= a.len(),
        shared_from(a, b, i) <= b.len(),
        forall|j: int| 0 <= j < shared_from(a, b, i) ==> a[j] == b[j],
    decreases a.len() - i,
{
    if i < a.len() && i < b.len() && a[i as int] == b[i as int] {
        lemma_shared_len_bounds(a, b, i + 1);
    }
}

/// Computes the minimal sequence of steps that leads from `from` to `to`, or `NotRelated` when
/// the two lie in different address spaces.
pub fn diff(from: &Location, to: &Location) -> (r: Result<Vec<Step>, NotRelated>)
    ensures
        path_diff(from@, to@) is None <==> r is Err,
        r matches Ok(steps) ==> path_diff(from@, to@) == Some(steps_view(steps@)),
{
    if !bytes_eq(&from.scheme, &to.scheme) {
        return Err(NotRelated::NotRelated);
    }
    let ghost a = from@.names;
    let ghost b = to@.names;
    let mut k: usize = 0;
    while k < from.names.len() && k < to.names.len() && bytes_eq(&from.names[k], &to.names[k])
        invariant
            k <= a.len(),
            k <= b.len(),
            a == from@.names,
            b == to@.names,
            shared_from(a, b, 0) == shared_from(a, b, k as nat),
        decreases a.len() - k,
    {
        k += 1;
    }
    proof {
        lemma_shared_len_bounds(a, b, 0);
    }
    assert(shared_len(a, b) == k);
    let mut steps: Vec<Step> = Vec::new();
    let mut i: usize = k;
    while i < from.names.len()
        invariant
            k <= i <= a.len(),
            a == from@.names,
            steps_view(steps@) == ascents((i - k) as nat),
        decreases a.len() - i,
    {
        let ghost before = steps@;
        steps.push(Step::Ascend);
        assert(steps_view(steps@) =~= steps_view(before).push(StepView::Ascend));
        assert(steps_view(steps@) =~= ascents((i + 1 - k) as nat));
        i += 1;
    }
    let ghost up = (a.len() - k) as nat;
    let mut j: usize = k;
    while j < to.names.len()
        invariant
            k <= j <= b.len(),
            b == to@.names,
            up == a.len() - k,
            steps_view(steps@) == ascents(up) + descents(b.subrange(k as int, j as int)),
        decreases b.len() - j,
    {
        let name = copy_bytes(&to.names[j]);
        let ghost before = steps@;
        steps.push(Step::Descend(name));
        assert(steps_view(steps@) =~= steps_view(before).push(StepView::Descend(b[j as int])));
        assert(descents(b.subrange(k as int, j + 1)) =~= descents(b.subrange(k as int, j as int)).push(StepView::Descend(b[j as int])));
        assert(steps_view(steps@) =~= ascents(up) + descents(b.subrange(k as int, j + 1)));
        j += 1;
    }
    Ok(steps)
}

/// The difference from a location to itself is empty.
pub proof fn lemma_diff_self(a: LocationView)
    ensures
        path_diff(a, a) == Some(Seq::<StepView>::empty()),
{
    lemma_shared_len_is(a.names, a.names, a.names.len());
    assert(ascents(0) + descents(a.names.subrange(a.names.len() as int, a.names.len() as int)) =~= Seq::<StepView>::empty());
}

/// The difference from a location to one of its ancestors is only ascend steps, one for each
/// level between them.
pub proof fn lemma_diff_to_ancestor(a: LocationView, p: LocationView)
    requires
        is_ancestor_or_self(p, a),
    ensures
        path_diff(a, p) == Some(ascents((a.names.len() - p.names.len()) as nat)),
{
    let k = p.names.len();
    assert forall|j: int| 0 <= j < k implies a.names[j] == p.names[j] by {
        assert(a.names.subrange(0, k as int)[j] == a.names[j]);
    }
    lemma_shared_len_is(a.names, p.names, k);
    assert(descents(p.names.subrange(k as int, k as int)) =~= Seq::<StepView>::empty());
    assert(ascents((a.names.len() - k) as nat) + Seq::<StepView>::empty() =~= ascents((a.names.len() - k) as nat));
}

/// The difference from a location to one of its children is the single step into that child.
pub proof fn lemma_diff_to_child(a: LocationView, name: Seq<u8>)
    ensures
        path_diff(a, child_of(a, name)) == Some(seq![StepView::Descend(name)]),
{
    let c = child_of(a, name);
    let k = a.names.len();
    lemma_shared_len_is(a.names, c.names, k);
    assert(c.names.subrange(k as int, c.names.len() as int) =~= seq![name]);
    assert(ascents(0) + descents(seq![name]) =~= seq![StepView::Descend(name)]);
}

/// The byte that separates the names of a path.
pub const SEPARATOR: u8 = 47;

/// A name that can stand in a path: not empty, and without a separator.
pub open spec fn valid_name(n: Seq<u8>) -> bool {
    n.len() > 0 && !n.contains(SEPARATOR)
}

/// The names collected so far, with the name being read added where it is not empty.
pub open spec fn flush(acc: Seq<Seq<u8>>, cur: Seq<u8>) -> Seq<Seq<u8>> {
    if cur.len() > 0 {
        acc.push(cur)
    } else {
        acc
    }
}

/// Reading a path byte by byte: the names completed so far, and the name being read.
/// Separators end a name; empty names are skipped.
pub open spec fn scan(p: Seq<u8>) -> (Seq<Seq<u8>>, Seq<u8>)
    decreases p.len(),
{
    if p.len() == 0 {
        (Seq::empty(), Seq::empty())
    } else {
        let (acc, cur) = scan(p.drop_last());
        if p.last() == SEPARATOR {
            (flush(acc, cur), Seq::empty())
        } else {
            (acc, cur.push(p.last()))
        }
    }
}

/// The names of the path `p`, split at separators, empty names left out.
pub open spec fn path_names(p: Seq<u8>) -> Seq<Seq<u8>> {
    flush(scan(p).0, scan(p).1)
}

/// The names written one after another, each after a separator.
pub open spec fn joined(names: Seq<Seq<u8>>) -> Seq<u8>
    decreases names.len(),
{
    if names.len() == 0 {
        Seq::empty()
    } else {
        joined(names.drop_last()) + seq![SEPARATOR] + names.last()
    }
}

/// The absolute path of the names: `/` for none, else `/a/b`.
pub open spec fn path_text(names: Seq<Seq<u8>>) -> Seq<u8> {
    if names.len() == 0 {
        seq![SEPARATOR]
    } else {
        joined(names)
    }
}

impl Location {
    /// This location's names written as an absolute path.
    pub fn to_path(&self) -> (r: Vec<u8>)
        ensures
            r@ == path_text(self@.names),
    {
        let ghost names = self@.names;
        let mut r: Vec<u8> = Vec::new();
        let mut i: usize = 0;
        while i < self.names.len()
            invariant
                i <= names.len(),
                names == self@.names,
                r@ == joined(names.subrange(0, i as int)),
            decreases self.names.len() - i,
        {
            let ghost before = r@;
            r.push(SEPARATOR);
            let name = &self.names[i];
            let mut j: usize = 0;
            while j < name.len()
                invariant
                    j <= name@.len(),
                    r@ == before + seq![SEPARATOR] + name@.subrange(0, j as int),
                decreases name.len() - j,
            {
                r.push(name[j]);
                assert(name@.subrange(0, j + 1) =~= name@.subrange(0, j as int).push(name@[j as int]));
                assert(r@ =~= before + seq![SEPARATOR] + name@.subrange(0, j + 1));
                j += 1;
            }
            assert(name@.subrange(0, name@.len() as int) =~= name@);
            assert(names.subrange(0, i + 1).drop_last() =~= names.subrange(0, i as int));
            assert(names.subrange(0, i + 1).last() == name@);
            i += 1;
        }
        assert(names.subrange(0, names.len() as int) =~= names);
        if self.names.len() == 0 {
            r.push(SEPARATOR);
            assert(r@ =~= seq![SEPARATOR]);
        }
        r
    }

    /// The location in the address space `scheme` written as the absolute path `p`, or `None`
    /// where `p` is not absolute.
    pub fn from_path(scheme: &Vec<u8>, p: &Vec<u8>) -> (r: Option<Location>)
        ensures
            r is None <==> p@.len() == 0 || p@[0] != SEPARATOR,
            r matches Some(l) ==> l@ == (LocationView { scheme: scheme@, names: path_names(p@) }),
    {
        if p.len() == 0 || p[0] != SEPARATOR {
            return None;
        }
        let mut acc: Vec<Vec<u8>> = Vec::new();
        let mut cur: Vec<u8> = Vec::new();
        let mut i: usize = 0;
        while i < p.len()
            invariant
                i <= p@.len(),
                (acc@.map_values(|n: Vec<u8>| n@), cur@) == scan(p@.subrange(0, i as int)),
            decreases p.len() - i,
        {
            let ghost a0 = acc@.map_values(|n: Vec<u8>| n@);
            let ghost c0 = cur@;
            assert(p@.subrange(0, i + 1).drop_last() =~= p@.subrange(0, i as int));
            assert(p@.subrange(0, i + 1).last() == p@[i as int]);
            if p[i] == SEPARATOR {
                if cur.len() > 0 {
                    acc.push(cur);
                    assert(acc@.map_values(|n: Vec<u8>| n@) =~= a0.push(c0));
                }
                cur = Vec::new();
                assert(cur@ =~= Seq::<u8>::empty());
            } else {
                cur.push(p[i]);
            }
            i += 1;
        }
        assert(p@.subrange(0, p@.len() as int) =~= p@);
        let ghost a0 = acc@.map_values(|n: Vec<u8>| n@);
        if cur.len() > 0 {
            let ghost c0 = cur@;
            acc.push(cur);
            assert(acc@.map_values(|n: Vec<u8>| n@) =~= a0.push(c0));
        }
        Some(Location { scheme: copy_bytes(scheme), names: acc })
    }
}

/// Reading a valid name after a path adds its bytes to the name being read.
proof fn lemma_scan_name(p: Seq<u8>, n: Seq<u8>)
    requires
        !n.contains(SEPARATOR),
    ensures
        scan(p + n) == (scan(p).0, scan(p).1 + n),
    decreases n.len(),
{
    if n.len() == 0 {
        assert(p + n =~= p);
        assert(scan(p).1 + n =~= scan(p).1);
    } else {
        let m = n.drop_last();
        assert(!m.contains(SEPARATOR)) by {
            if m.contains(SEPARATOR) {
                let k = choose|k: int| 0 <= k < m.len() && m[k] == SEPARATOR;
                assert(n[k] == SEPARATOR);
            }
        }
        lemma_scan_name(p, m);
        assert((p + n).drop_last() =~= p + m);
        assert((p + n).last() == n.last());
        assert(n.last() != SEPARATOR) by {
            assert(n[n.len() - 1] == n.last());
        }
        assert(scan(p).1 + m + seq![n.last()] =~= scan(p).1 + n);
    }
}

/// Reading the path of one or more valid names leaves all but the last completed, and the last
/// being read.
proof fn lemma_scan_joined(names: Seq<Seq<u8>>)
    requires
        names.len() >= 1,
        forall|i: int| 0 <= i < names.len() ==> valid_name(#[trigger] names[i]),
    ensures
        scan(joined(names)) == (names.drop_last(), names.last()),
    decreases names.len(),
{
    let front = names.drop_last();
    let j = joined(front);
    let n = names.last();
    assert(valid_name(names[names.len() - 1]));
    let js = j + seq![SEPARATOR];
    assert(js.drop_last() =~= j);
    assert(js.last() == SEPARATOR);
    if names.len() == 1 {
        assert(j =~= Seq::<u8>::empty());
        assert(js.drop_last() =~= Seq::<u8>::empty());
        assert(scan(Seq::<u8>::empty()) == (Seq::<Seq<u8>>::empty(), Seq::<u8>::empty()));
        assert(scan(js) == (Seq::<Seq<u8>>::empty(), Seq::<u8>::empty()));
        assert(front =~= Seq::<Seq<u8>>::empty());
    } else {
        assert forall|i: int| 0 <= i < front.len() implies valid_name(#[trigger] front[i]) by {
            assert(front[i] == names[i]);
        }
        lemma_scan_joined(front);
        assert(valid_name(front[front.len() - 1]));
        assert(front.drop_last().push(front.last()) =~= front);
    }
    lemma_scan_name(js, n);
    assert(Seq::<u8>::empty() + n =~= n);
    assert(joined(names) =~= js + n);
}

/// Writing valid names as a path and reading the path back gives the same names.
pub proof fn lemma_path_round_trip(names: Seq<Seq<u8>>)
    requires
        forall|i: int| 0 <= i < names.len() ==> valid_name(#[trigger] names[i]),
    ensures
        path_text(names).len() > 0,
        path_text(names)[0] == SEPARATOR,
        path_names(path_text(names)) == names,
{
    if names.len() == 0 {
        let p = seq![SEPARATOR];
        assert(p.drop_last() =~= Seq::<u8>::empty());
        assert(scan(Seq::<u8>::empty()) == (Seq::<Seq<u8>>::empty(), Seq::<u8>::empty()));
        assert(scan(p) == (Seq::<Seq<u8>>::empty(), Seq::<u8>::empty()));
        assert(names =~= Seq::<Seq<u8>>::empty());
    } else {
        lemma_scan_joined(names);
        assert(valid_name(names[names.len() - 1]));
        assert(names.drop_last().push(names.last()) =~= names);
        lemma_joined_starts(names);
    }
}

/// The path of one or more names starts with a separator.
proof fn lemma_joined_starts(names: Seq<Seq<u8>>)
    requires
        names.len() >= 1,
    ensures
        joined(names).len() > 0,
        joined(names)[0] == SEPARATOR,
    decreases names.len(),
{
    if names.len() > 1 {
        lemma_joined_starts(names.drop_last());
    } else {
        assert(joined(names.drop_last()) =~= Seq::<u8>::empty());
    }
}

} // verus!
