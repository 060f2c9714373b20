//! Descriptions shown for a selection: numbers written out, the summary of a group of entries,
//! and the short phrases built from them.
use vstd::prelude::*;
use itertools::{Itertools, MinMaxResult};

verus! {

/// A point in time, with the calendar day that it falls on where it is shown.
#[derive(PartialEq, Eq, Structural, Clone, Copy, Debug)]
pub struct DateStamp {
    /// Seconds since the Unix epoch.
    pub seconds: i64,
    pub year: i32,
    pub month: u8,
    pub day: u8,
}

/// Whether two stamps fall on the same calendar day.
pub open spec fn same_day(a: DateStamp, b: DateStamp) -> bool {
    a.year == b.year && a.month == b.month && a.day == b.day
}

/// The span of a group of stamps.
#[derive(PartialEq, Eq, Structural, Clone, Copy, Debug)]
pub enum DateSpan {
    /// No stamp is known.
    Missing,
    /// Every stamp falls on this one day; the stamp is the earliest.
    Day(DateStamp),
    /// From the earliest stamp to the latest.
    Range(DateStamp, DateStamp),
}

/// What is known of one entry of a group.
#[derive(PartialEq, Eq, Structural, Clone, Copy, Debug)]
pub struct EntryMeta {
    pub is_dir: bool,
    pub size: u64,
    pub created: Option<DateStamp>,
    pub modified: Option<DateStamp>,
}

/// The description of a group of entries.
#[derive(PartialEq, Eq, Structural, Clone, Copy, Debug)]
pub struct GroupSummary {
    pub count: usize,
    pub documents: usize,
    pub folders: usize,
    /// The sum of the sizes, or `u64::MAX` where it does not fit.
    pub total_size: u64,
    pub created: DateSpan,
    pub modified: DateSpan,
}

/// `lo` is the first of `v` with the smallest time.
pub open spec fn is_first_min(v: Seq<DateStamp>, lo: DateStamp) -> bool {
    exists|i: int|
        0 <= i < v.len() && v[i] == lo && (forall|j: int| 0 <= j < v.len() ==> lo.seconds <= #[trigger] v[j].seconds)
            && (forall|j: int| 0 <= j < i ==> lo.seconds < #[trigger] v[j].seconds)
}

/// `hi` is the last of `v` with the largest time.
pub open spec fn is_last_max(v: Seq<DateStamp>, hi: DateStamp) -> bool {
    exists|i: int|
        0 <= i < v.len() && v[i] == hi && (forall|j: int| 0 <= j < v.len() ==> #[trigger] v[j].seconds <= hi.seconds)
            && (forall|j: int| i < j < v.len() ==> #[trigger] v[j].seconds < hi.seconds)
}

/// `span` describes the stamps `v`: missing when there are none, one day when the earliest and
/// the latest fall on the same day, a range otherwise.
pub open spec fn spans(v: Seq<DateStamp>, span: DateSpan) -> bool {
    match span {
        DateSpan::Missing => v.len() == 0,
        DateSpan::Day(d) => is_first_min(v, d) && exists|hi: DateStamp| is_last_max(v, hi) && same_day(d, hi),
        DateSpan::Range(lo, hi) => is_first_min(v, lo) && is_last_max(v, hi) && !same_day(lo, hi),
    }
}

/// Relies on itertools' `Itertools::minmax_by_key`, keyed by the time: the first entry with the
/// smallest key and the last with the largest, or nothing for an empty list.
#[verifier::external_body]
fn extremes(v: &Vec<DateStamp>) -> (r: Option<(DateStamp, DateStamp)>)
    ensures
        r is None <==> v@.len() == 0,
        r matches Some((lo, hi)) ==> is_first_min(v@, lo) && is_last_max(v@, hi),
{
    match v.iter().minmax_by_key(|s| s.seconds) {
        MinMaxResult::NoElements => None,
        MinMaxResult::OneElement(s) => Some((*s, *s)),
        MinMaxResult::MinMax(lo, hi) => Some((*lo, *hi)),
    }
}

/// The span of the stamps `v`.
pub fn date_span(v: &Vec<DateStamp>) -> (r: DateSpan)
    ensures
        spans(v@, r),
{
    match extremes(v) {
        None => DateSpan::Missing,
        Some((lo, hi)) => if lo.year == hi.year && lo.month == hi.month && lo.day == hi.day {
            DateSpan::Day(lo)
        } else {
            DateSpan::Range(lo, hi)
        },
    }
}

/// The known stamps among `s`, in order.
pub open spec fn known(s: Seq<Option<DateStamp>>) -> Seq<DateStamp>
    decreases s.len(),
{
    if s.len() == 0 {
        Seq::empty()
    } else {
        match s.last() {
            Some(d) => known(s.drop_last()).push(d),
            None => known(s.drop_last()),
        }
    }
}

/// The number of directories among `s`.
pub open spec fn folder_count(s: Seq<EntryMeta>) -> nat
    decreases s.len(),
{
    if s.len() == 0 {
        0
    } else {
        folder_count(s.drop_last()) + if s.last().is_dir {
            1nat
        } else {
            0nat
        }
    }
}

/// The sum of the sizes of `s`.
pub open spec fn size_sum(s: Seq<EntryMeta>) -> nat
    decreases s.len(),
{
    if s.len() == 0 {
        0
    } else {
        size_sum(s.drop_last()) + s.last().size as nat
    }
}

/// `n`, or `u64::MAX` where `n` is larger.
pub open spec fn saturated(n: nat) -> u64 {
    if n <= u64::MAX {
        n as u64
    } else {
        u64::MAX
    }
}

/// `g` describes the entries `s`.
pub open spec fn summarizes(s: Seq<EntryMeta>, g: GroupSummary) -> bool {
    &&& g.count == s.len()
    &&& g.folders == folder_count(s)
    &&& g.documents == s.len() - folder_count(s)
    &&& g.total_size == saturated(size_sum(s))
    &&& spans(known(s.map_values(|m: EntryMeta| m.created)), g.created)
    &&& spans(known(s.map_values(|m: EntryMeta| m.modified)), g.modified)
}

/// The known stamps among `s`, picked by `created` (else the modification times).
fn known_stamps(s: &Vec<EntryMeta>, created: bool) -> (r: Vec<DateStamp>)
    ensures
        r@ == known(
            if created {
                s@.map_values(|m: EntryMeta| m.created)
            } else {
                s@.map_values(|m: EntryMeta| m.modified)
            },
        ),
{
    let ghost all = if created {
        s@.map_values(|m: EntryMeta| m.created)
    } else {
        s@.map_values(|m: EntryMeta| m.modified)
    };
    let mut r: Vec<DateStamp> = Vec::new();
    let mut i: usize = 0;
    while i < s.len()
        invariant
            i <= s@.len(),
            all.len() == s@.len(),
            all == if created {
                s@.map_values(|m: EntryMeta| m.created)
            } else {
                s@.map_values(|m: EntryMeta| m.modified)
            },
            r@ == known(all.subrange(0, i as int)),
        decreases s.len() - i,
    {
        let stamp = if created {
            s[i].created
        } else {
            s[i].modified
        };
        assert(all.subrange(0, i + 1).drop_last() =~= all.subrange(0, i as int));
        assert(all.subrange(0, i + 1).last() == stamp);
        if let Some(d) = stamp {
            r.push(d);
        }
        i += 1;
    }
    assert(all.subrange(0, s@.len() as int) =~= all);
    r
}

/// Summarizes a group of entries: how many, how many documents and folders, their total size,
/// and the spans of their creation and modification times.
pub fn summarize(entries: &Vec<EntryMeta>) -> (r: GroupSummary)
    ensures
        summarizes(entries@, r),
{
    let mut folders: usize = 0;
    let mut total: u64 = 0;
    let mut i: usize = 0;
    while i < entries.len()
        invariant
            i <= entries@.len(),
            folders == folder_count(entries@.subrange(0, i as int)),
            folders <= i,
            total == saturated(size_sum(entries@.subrange(0, i as int))),
        decreases entries.len() - i,
    {
        let e = entries[i];
        let ghost pre = entries@.subrange(0, i as int);
        assert(entries@.subrange(0, i + 1).drop_last() =~= pre);
        assert(entries@.subrange(0, i + 1).last() == e);
        if e.is_dir {
            folders += 1;
        }
        total = total.saturating_add(e.size);
        i += 1;
    }
    assert(entries@.subrange(0, entries@.len() as int) =~= entries@);
    let created = known_stamps(entries, true);
    let modified = known_stamps(entries, false);
    GroupSummary {
        count: entries.len(),
        documents: entries.len() - folders,
        folders,
        total_size: total,
        created: date_span(&created),
        modified: date_span(&modified),
    }
}

/// The decimal digit `d`.
pub open spec fn digit(d: nat) -> char {
    "0123456789"@[d as int]
}

/// The decimal writing of `n`, without leading zeros.
pub open spec fn decimal(n: nat) -> Seq<char>
    decreases n,
{
    if n < 10 {
        seq![digit(n)]
    } else {
        decimal(n / 10).push(digit(n % 10))
    }
}

/// Relies on `ToString` for `u64` (through `Display`): the number in decimal digits.
#[verifier::external_body]
fn decimal_text(n: u64) -> (r: String)
    ensures
        r@ == decimal(n as nat),
{
    n.to_string()
}

/// `"s"` unless `n` is one.
pub open spec fn plural(n: nat) -> Seq<char> {
    if n != 1 {
        "s"@
    } else {
        ""@
    }
}

/// `n` followed by `word`, in the plural unless `n` is one: "1 folder", "3 folders".
pub open spec fn counted(n: nat, word: Seq<char>) -> Seq<char> {
    decimal(n) + " "@ + word + plural(n)
}

/// The kinds of a group's entries: "2 folders", "1 document", "3 documents, 1 folder".
pub open spec fn item_types_text(documents: nat, folders: nat) -> Seq<char> {
    if documents == 0 {
        counted(folders, "folder"@)
    } else if folders == 0 {
        counted(documents, "document"@)
    } else {
        counted(documents, "document"@) + ", "@ + counted(folders, "folder"@)
    }
}

/// Writes `n` and `word`, in the plural unless `n` is one.
pub fn count_words(n: u64, word: &str) -> (r: String)
    ensures
        r@ == counted(n as nat, word@),
{
    let mut r = decimal_text(n);
    r.append(" ");
    r.append(word);
    if n != 1 {
        r.append("s");
    }
    proof {
        reveal_strlit("s");
        reveal_strlit("");
    }
    assert(r@ =~= counted(n as nat, word@));
    r
}

/// Describes the kinds of a group's entries.
pub fn item_types(documents: u64, folders: u64) -> (r: String)
    ensures
        r@ == item_types_text(documents as nat, folders as nat),
{
    if documents == 0 {
        count_words(folders, "folder")
    } else if folders == 0 {
        count_words(documents, "document")
    } else {
        let mut r = count_words(documents, "document");
        r.append(", ");
        let f = count_words(folders, "folder");
        r.append(f.as_str());
        r
    }
}

/// The heading of a group of `n` entries: "3 items".
pub fn items_heading(n: u64) -> (r: String)
    ensures
        r@ == decimal(n as nat) + " items"@,
{
    let mut r = decimal_text(n);
    r.append(" items");
    r
}

} // verus!
