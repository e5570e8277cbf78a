//! The one place where the lines of all files meet, and where they are put in
//! the order of time.
//!
//! Scans hand their lines over as they find them, in whatever order the files
//! happen to be read. When all scans are done the lines are sorted by time; lines
//! of the same moment stay in the order in which they arrived.

use crate::logline::{YBLogLine, YBLogLineView};
use crate::timestamp::{lemma_ordinal_fits, lemma_ordinal_is_lexicographic, Timestamp};
use vstd::multiset::{group_multiset_axioms, Multiset};
use vstd::prelude::*;
use vstd::relations::{
    antisymmetric, reflexive, sorted_by, strongly_connected, total_ordering, transitive,
};
use vstd::seq_lib::{
    group_to_multiset_ensures, lemma_multiset_commutative, lemma_sorted_unique,
    to_multiset_build, to_multiset_len,
};

verus! {

/// A log line and the log file that it stood in.
#[derive(Clone, Debug, PartialEq, Eq)]
pub struct OutputRecord {
    /// The log file that the line comes from.
    pub source: String,
    pub line: YBLogLine,
}

/// An `OutputRecord` as a mathematical value.
pub struct OutputRecordView {
    pub source: Seq<char>,
    pub line: YBLogLineView,
}

impl View for OutputRecord {
    type V = OutputRecordView;

    open spec fn view(&self) -> OutputRecordView {
        OutputRecordView { source: self.source@, line: self.line@ }
    }
}

impl OutputRecord {
    /// The record's place in the order of time.
    pub open spec fn ordinal(self) -> int {
        self.line.timestamp.ordinal()
    }
}

/// A record on its way through the sort: with its place in time, and with the
/// place at which it arrived.
struct Entry {
    key: i128,
    index: usize,
    record: OutputRecord,
}

impl Entry {
    /// Whether `self` comes before `other`, or is `other`: the earlier one first,
    /// and of two of the same moment the one that arrived first.
    spec fn precedes(self, other: Entry) -> bool {
        self.key < other.key || (self.key == other.key && self.index <= other.index)
    }

    fn is_not_after(&self, other: &Entry) -> (b: bool)
        ensures
            b == self.precedes(*other),
    {
        self.key < other.key || (self.key == other.key && self.index <= other.index)
    }
}

/// Every entry comes before those that follow it.
spec fn ascending(s: Seq<Entry>) -> bool {
    forall|i: int, j: int| 0 <= i < j < s.len() ==> s[i].precedes(s[j])
}

/// Every entry comes after those that follow it.
spec fn descending(s: Seq<Entry>) -> bool {
    forall|i: int, j: int| 0 <= i < j < s.len() ==> s[j].precedes(s[i])
}

/// Every entry of `low` comes before every entry of `high`.
spec fn all_precede(low: Seq<Entry>, high: Seq<Entry>) -> bool {
    forall|i: int, j: int| 0 <= i < low.len() && 0 <= j < high.len() ==> low[i].precedes(high[j])
}

/// The entries of `v`, last one first.
fn reversed(v: Vec<Entry>) -> (out: Vec<Entry>)
    ensures
        out@ == v@.reverse(),
{
    let mut v = v;
    let ghost all = v@;
    let mut out: Vec<Entry> = Vec::new();
    while v.len() > 0
        invariant
            v@ == all.take(v.len() as int),
            out.len() + v.len() == all.len(),
            forall|i: int| 0 <= i < out.len() ==> out@[i] == all[all.len() - 1 - i],
        decreases v.len(),
    {
        let e = v.pop().unwrap();
        out.push(e);
    }
    assert(out@ =~= all.reverse());
    out
}

/// Merges two ascending lists into one.
fn merge(a: Vec<Entry>, b: Vec<Entry>) -> (out: Vec<Entry>)
    requires
        ascending(a@),
        ascending(b@),
    ensures
        ascending(out@),
        out@.to_multiset() == a@.to_multiset().add(b@.to_multiset()),
{
    broadcast use {group_to_multiset_ensures, group_multiset_axioms};

    let mut a = a;
    let mut b = b;
    let ghost total = a@.to_multiset().add(b@.to_multiset());
    let mut falling: Vec<Entry> = Vec::new();
    while a.len() > 0 || b.len() > 0
        invariant
            ascending(a@),
            ascending(b@),
            descending(falling@),
            all_precede(a@, falling@),
            all_precede(b@, falling@),
            falling@.to_multiset().add(a@.to_multiset()).add(b@.to_multiset()) == total,
        decreases a.len() + b.len(),
    {
        let ghost a_before = a@;
        let ghost b_before = b@;
        let ghost falling_before = falling@;
        let from_a = b.len() == 0 || (a.len() > 0 && !a[a.len() - 1].is_not_after(
            &b[b.len() - 1],
        ));
        let e = if from_a {
            a.pop().unwrap()
        } else {
            b.pop().unwrap()
        };
        falling.push(e);
        proof {
            if from_a {
                assert(a_before =~= a@.push(e));
                to_multiset_build(a@, e);
            } else {
                assert(b_before =~= b@.push(e));
                to_multiset_build(b@, e);
            }
            assert(falling@ =~= falling_before.push(e));
            to_multiset_build(falling_before, e);
            assert(falling@.to_multiset().add(a@.to_multiset()).add(b@.to_multiset()) =~= total);
            assert forall|i: int, j: int| 0 <= i < j < falling@.len() implies falling@[j].precedes(
                falling@[i],
            ) by {
                if j == falling_before.len() {
                    if from_a {
                        assert(a_before[a_before.len() - 1].precedes(falling_before[i]));
                    } else {
                        assert(b_before[b_before.len() - 1].precedes(falling_before[i]));
                    }
                }
            }
            assert forall|i: int, j: int|
                0 <= i < a@.len() && 0 <= j < falling@.len() implies a@[i].precedes(
                falling@[j],
            ) by {
                if j == falling_before.len() {
                    if from_a {
                        assert(a_before[i].precedes(a_before[a_before.len() - 1]));
                    } else {
                        assert(a_before[i].precedes(a_before[a_before.len() - 1]));
                        assert(a_before[a_before.len() - 1].precedes(e));
                    }
                } else {
                    assert(a_before[i].precedes(falling_before[j]));
                }
            }
            assert forall|i: int, j: int|
                0 <= i < b@.len() && 0 <= j < falling@.len() implies b@[i].precedes(
                falling@[j],
            ) by {
                if j == falling_before.len() {
                    if from_a {
                        assert(b_before[i].precedes(b_before[b_before.len() - 1]));
                        assert(b_before[b_before.len() - 1].precedes(e));
                    } else {
                        assert(b_before[i].precedes(b_before[b_before.len() - 1]));
                    }
                } else {
                    assert(b_before[i].precedes(falling_before[j]));
                }
            }
        }
    }
    let ghost fallen = falling@;
    let out = reversed(falling);
    proof {
        fallen.lemma_reverse_to_multiset();
        assert(a@.to_multiset() =~= Multiset::empty());
        assert(b@.to_multiset() =~= Multiset::empty());
        assert(fallen.to_multiset() =~= total);
    }
    out
}

/// Sorts the entries: the earlier one first, and of two of the same moment the
/// one that arrived first.
fn merge_sort(v: Vec<Entry>) -> (out: Vec<Entry>)
    ensures
        ascending(out@),
        out@.to_multiset() == v@.to_multiset(),
    decreases v.len(),
{
    if v.len() <= 1 {
        return v;
    }
    let mut left = v;
    let ghost all = left@;
    let right = left.split_off(left.len() / 2);
    proof {
        assert(all =~= left@ + right@);
        lemma_multiset_commutative(left@, right@);
    }
    let left = merge_sort(left);
    let right = merge_sort(right);
    merge(left, right)
}

/// The record that arrived at place `i`, as the sort takes it.
spec fn entry_at(lines: Seq<OutputRecord>, i: int) -> Entry {
    Entry { key: lines[i].ordinal() as i128, index: i as usize, record: lines[i] }
}

/// Whether `entries` are the records of `lines`, each with its place in time and
/// the place at which it arrived.
spec fn entries_of(lines: Seq<OutputRecord>, entries: Seq<Entry>) -> bool {
    entries.len() == lines.len() && forall|i: int|
        0 <= i < lines.len() ==> #[trigger] entries[i] == entry_at(lines, i)
}

/// The records of the entries.
spec fn records_of(entries: Seq<Entry>) -> Seq<OutputRecord> {
    entries.map_values(|e: Entry| e.record)
}

/// Gives every record its place in time and the place at which it arrived.
fn tagged(lines: Vec<OutputRecord>) -> (entries: Vec<Entry>)
    ensures
        entries_of(lines@, entries@),
{
    let ghost all = lines@;
    let mut entries: Vec<Entry> = Vec::new();
    for record in it: lines
        invariant
            it.seq() == all,
            entries.len() == it.index(),
            forall|i: int| 0 <= i < entries.len() ==> #[trigger] entries@[i] == entry_at(all, i),
    {
        let key = record.line.timestamp.sort_key();
        let index = entries.len();
        entries.push(Entry { key, index, record });
    }
    entries
}

/// Takes the records out of their entries.
fn untagged(entries: Vec<Entry>) -> (lines: Vec<OutputRecord>)
    ensures
        lines@ == records_of(entries@),
{
    let ghost all = entries@;
    let mut lines: Vec<OutputRecord> = Vec::new();
    for entry in it: entries
        invariant
            it.seq() == all,
            lines.len() == it.index(),
            forall|i: int| 0 <= i < lines.len() ==> #[trigger] lines@[i] == all[i].record,
    {
        lines.push(entry.record);
    }
    assert(lines@ =~= records_of(all));
    lines
}

/// Two lists that hold the same things, each as often as the other, still do
/// so when one function is applied to all their items.
pub proof fn lemma_map_keeps_multiset<A, B>(a: Seq<A>, b: Seq<A>, f: spec_fn(A) -> B)
    requires
        a.to_multiset() == b.to_multiset(),
    ensures
        a.map_values(f).to_multiset() == b.map_values(f).to_multiset(),
    decreases a.len(),
{
    broadcast use {group_to_multiset_ensures, group_multiset_axioms};

    assert(a.len() == b.len()) by {
        to_multiset_len(a);
        to_multiset_len(b);
    }
    if a.len() == 0 {
        assert(a.map_values(f) =~= b.map_values(f));
    } else {
        let x = a.last();
        assert(a.contains(x));
        assert(b.to_multiset().count(x) > 0);
        assert(b.contains(x));
        let j = choose|j: int| 0 <= j < b.len() && b[j] == x;
        let a_rest = a.drop_last();
        let b_rest = b.remove(j);
        assert(a_rest =~= a.remove(a.len() - 1));
        assert(a_rest.to_multiset() =~= b_rest.to_multiset());
        lemma_map_keeps_multiset(a_rest, b_rest, f);
        assert(a.map_values(f) =~= a_rest.map_values(f).push(f(x)));
        assert(b.map_values(f) =~= b_rest.map_values(f).insert(j, f(x)));
        to_multiset_build(a_rest.map_values(f), f(x));
        assert(a.map_values(f).to_multiset() =~= b.map_values(f).to_multiset());
    }
}

/// Whether `output` is `input` sorted by time, the lines of one moment in the
/// order that they have in `input`, where `order` tells for each place of
/// `output` the place of `input` that its record comes from. No place of `input`
/// then occurs in `order` twice, and there are as many places in `order` as in
/// `input`: nothing is lost and nothing comes twice.
pub open spec fn is_stable_sort(
    input: Seq<OutputRecord>,
    output: Seq<OutputRecord>,
    order: Seq<int>,
) -> bool {
    &&& order.len() == input.len()
    &&& output.len() == input.len()
    &&& forall|k: int|
        0 <= k < order.len() ==> 0 <= #[trigger] order[k] < input.len() && output[k]
            == input[order[k]]
    &&& in_time_order(output)
    &&& forall|i: int, j: int|
        #![trigger order[i], order[j]]
        0 <= i < j < order.len() && output[i].ordinal() == output[j].ordinal() ==> order[i]
            < order[j]
}

/// A sort takes the record of every place of what it sorts, and of none twice.
pub proof fn lemma_stable_sort_takes_each_once(
    input: Seq<OutputRecord>,
    output: Seq<OutputRecord>,
    order: Seq<int>,
)
    requires
        is_stable_sort(input, output, order),
    ensures
        order.no_duplicates(),
{
    assert forall|i: int, j: int|
        0 <= i < order.len() && 0 <= j < order.len() && i != j implies order[i] != order[j] by {
        if order[i] == order[j] {
            assert(output[i] == input[order[i]]);
            assert(output[j] == input[order[j]]);
            if i < j {
                assert(order[i] < order[j]);
            } else {
                assert(order[j] < order[i]);
            }
        }
    }
}

/// Whether the records stand in the order of time.
pub open spec fn in_time_order(records: Seq<OutputRecord>) -> bool {
    forall|i: int, j: int|
        0 <= i < j < records.len() ==> #[trigger] records[i].ordinal()
            <= #[trigger] records[j].ordinal()
}

/// What the sort of the entries says of the records.
proof fn lemma_sorted_entries(
    input: Seq<OutputRecord>,
    entries: Seq<Entry>,
    sorted: Seq<Entry>,
) -> (order: Seq<int>)
    requires
        input.len() <= usize::MAX,
        entries_of(input, entries),
        ascending(sorted),
        sorted.to_multiset() == entries.to_multiset(),
    ensures
        is_stable_sort(input, records_of(sorted), order),
        records_of(sorted).to_multiset() == input.to_multiset(),
{
    broadcast use {group_to_multiset_ensures, group_multiset_axioms};

    let order = sorted.map_values(|e: Entry| e.index as int);
    let output = records_of(sorted);
    assert(sorted.len() == entries.len()) by {
        to_multiset_len(sorted);
        to_multiset_len(entries);
    }
    assert forall|k: int| 0 <= k < sorted.len() implies 0 <= sorted[k].index < input.len()
        && sorted[k] == entry_at(input, sorted[k].index as int) by {
        assert(sorted.contains(sorted[k]));
        assert(entries.to_multiset().count(sorted[k]) > 0);
        assert(entries.contains(sorted[k]));
        let i = choose|i: int| 0 <= i < entries.len() && entries[i] == sorted[k];
        assert(entries[i] == entry_at(input, i));
    }
    assert(entries.no_duplicates()) by {
        assert forall|i: int, j: int|
            0 <= i < entries.len() && 0 <= j < entries.len() && i != j implies entries[i]
            != entries[j] by {
            assert(entries[i] == entry_at(input, i));
            assert(entries[j] == entry_at(input, j));
        }
    }
    entries.lemma_multiset_has_no_duplicates();
    sorted.lemma_multiset_has_no_duplicates_conv();
    assert forall|i: int, j: int| 0 <= i < j < output.len() implies #[trigger] output[i].ordinal()
        <= #[trigger] output[j].ordinal() by {
        lemma_ordinal_fits(output[i].line.timestamp);
        lemma_ordinal_fits(output[j].line.timestamp);
        assert(sorted[i].precedes(sorted[j]));
        assert(sorted[i] == entry_at(input, sorted[i].index as int));
        assert(sorted[j] == entry_at(input, sorted[j].index as int));
    }
    assert forall|i: int, j: int|
        #![trigger order[i], order[j]]
        0 <= i < j < order.len() && output[i].ordinal() == output[j].ordinal() implies order[i]
        < order[j] by {
        lemma_ordinal_fits(output[i].line.timestamp);
        lemma_ordinal_fits(output[j].line.timestamp);
        assert(sorted[i].precedes(sorted[j]));
        assert(sorted[i] != sorted[j]);
        assert(sorted[i] == entry_at(input, sorted[i].index as int));
        assert(sorted[j] == entry_at(input, sorted[j].index as int));
    }
    assert forall|k: int| 0 <= k < order.len() implies 0 <= #[trigger] order[k] < input.len()
        && output[k] == input[order[k]] by {
        assert(sorted[k] == entry_at(input, sorted[k].index as int));
    }
    lemma_map_keeps_multiset(sorted, entries, |e: Entry| e.record);
    assert(records_of(entries) =~= input);
    order
}

/// The lines that the scans have handed over.
#[derive(Debug)]
pub struct OutputCollector {
    pub output_lines: Vec<OutputRecord>,
}

impl View for OutputCollector {
    type V = Seq<OutputRecord>;

    open spec fn view(&self) -> Seq<OutputRecord> {
        self.output_lines@
    }
}

impl OutputCollector {
    /// A collector that holds nothing.
    pub fn new() -> (collector: OutputCollector)
        ensures
            collector@ == Seq::<OutputRecord>::empty(),
    {
        OutputCollector { output_lines: Vec::new() }
    }

    /// How many lines the collector holds.
    pub fn len(&self) -> (n: usize)
        ensures
            n == self@.len(),
    {
        self.output_lines.len()
    }

    /// Takes one more line, after those that the collector holds.
    pub fn append(&mut self, record: OutputRecord)
        ensures
            final(self)@ == old(self)@.push(record),
    {
        self.output_lines.push(record);
    }

    /// Takes the lines of `records`, in their order, after those that the
    /// collector holds.
    pub fn append_all(&mut self, records: Vec<OutputRecord>)
        ensures
            final(self)@ == old(self)@ + records@,
    {
        let mut records = records;
        self.output_lines.append(&mut records);
    }

    /// Puts the lines in the order of time. Lines of one moment stay in the
    /// order in which they arrived.
    pub fn sort_lines(&mut self)
        ensures
            exists|order: Seq<int>| is_stable_sort(old(self)@, final(self)@, order),
            final(self)@.to_multiset() == old(self)@.to_multiset(),
            in_time_order(final(self)@),
    {
        let mut lines: Vec<OutputRecord> = Vec::new();
        core::mem::swap(&mut lines, &mut self.output_lines);
        let ghost input = lines@;
        assert(input.len() == lines.len() <= usize::MAX);
        let entries = tagged(lines);
        let ghost tagged_entries = entries@;
        let sorted = merge_sort(entries);
        let ghost sorted_entries = sorted@;
        self.output_lines = untagged(sorted);
        proof {
            let order = lemma_sorted_entries(input, tagged_entries, sorted_entries);
            assert(is_stable_sort(old(self)@, self@, order));
        }
    }

    /// Ends the collecting: the lines, in the order of time.
    pub fn finalize(self) -> (lines: Vec<OutputRecord>)
        ensures
            exists|order: Seq<int>| is_stable_sort(self@, lines@, order),
            lines@.to_multiset() == self@.to_multiset(),
            in_time_order(lines@),
    {
        let mut collector = self;
        collector.sort_lines();
        collector.output_lines
    }
}

/// The moments of the records, in the order of the records.
pub open spec fn moments(records: Seq<OutputRecord>) -> Seq<Timestamp> {
    records.map_values(|r: OutputRecord| r.line.timestamp)
}

/// Whether `sorted` holds the records of `arrived`, each as often as `arrived`
/// does, in the order of time.
pub open spec fn is_merge_of(arrived: Seq<OutputRecord>, sorted: Seq<OutputRecord>) -> bool {
    sorted.to_multiset() == arrived.to_multiset() && in_time_order(sorted)
}

/// The order in which the scans hand their lines over does not show in the
/// result. Let the same records arrive in two orders, and let each arrival be
/// sorted. Then both results have as many records as arrived, and the same
/// moments at the same places. Where no two records are of the same moment, the
/// two results are the same list.
pub proof fn lemma_merge_ignores_arrival_order(
    first: Seq<OutputRecord>,
    second: Seq<OutputRecord>,
    first_sorted: Seq<OutputRecord>,
    second_sorted: Seq<OutputRecord>,
)
    requires
        first.to_multiset() == second.to_multiset(),
        is_merge_of(first, first_sorted),
        is_merge_of(second, second_sorted),
    ensures
        first_sorted.len() == first.len(),
        second_sorted.len() == first.len(),
        moments(first_sorted) == moments(second_sorted),
        (forall|i: int, j: int|
            0 <= i < j < first.len() ==> first[i].ordinal() != first[j].ordinal())
            ==> first_sorted == second_sorted,
{
    broadcast use {group_to_multiset_ensures, group_multiset_axioms};

    to_multiset_len(first);
    to_multiset_len(second);
    to_multiset_len(first_sorted);
    to_multiset_len(second_sorted);
    let place = |r: OutputRecord| r.ordinal();
    let no_later = |x: int, y: int| x <= y;
    let a = first_sorted.map_values(place);
    let b = second_sorted.map_values(place);
    lemma_map_keeps_multiset(first_sorted, second_sorted, place);
    assert(sorted_by(a, no_later)) by {
        assert forall|i: int, j: int| 0 <= i < j < a.len() implies #[trigger] no_later(
            a[i],
            a[j],
        ) by {
            assert(first_sorted[i].ordinal() <= first_sorted[j].ordinal());
        }
    }
    assert(sorted_by(b, no_later)) by {
        assert forall|i: int, j: int| 0 <= i < j < b.len() implies #[trigger] no_later(
            b[i],
            b[j],
        ) by {
            assert(second_sorted[i].ordinal() <= second_sorted[j].ordinal());
        }
    }
    assert(total_ordering(no_later)) by {
        assert(reflexive(no_later));
        assert(antisymmetric(no_later));
        assert(transitive(no_later));
        assert(strongly_connected(no_later));
    }
    lemma_sorted_unique(a, b, no_later);
    assert forall|k: int| 0 <= k < first_sorted.len() implies moments(first_sorted)[k] == moments(
        second_sorted,
    )[k] by {
        assert(a[k] == b[k]);
        lemma_ordinal_is_lexicographic(
            first_sorted[k].line.timestamp,
            second_sorted[k].line.timestamp,
        );
    }
    assert(moments(first_sorted) =~= moments(second_sorted));
    if forall|i: int, j: int| 0 <= i < j < first.len() ==> first[i].ordinal() != first[j].ordinal() {
        assert forall|k: int| 0 <= k < first_sorted.len() implies first_sorted[k]
            == second_sorted[k] by {
            let x = first_sorted[k];
            let y = second_sorted[k];
            assert(a[k] == b[k]);
            assert(first_sorted.contains(x));
            assert(second_sorted.contains(y));
            assert(first.to_multiset().count(x) > 0);
            assert(first.to_multiset().count(y) > 0);
            assert(first.contains(x));
            assert(first.contains(y));
            let i = choose|i: int| 0 <= i < first.len() && first[i] == x;
            let j = choose|j: int| 0 <= j < first.len() && first[j] == y;
            if i < j {
                assert(first[i].ordinal() != first[j].ordinal());
            } else if j < i {
                assert(first[j].ordinal() != first[i].ordinal());
            }
        }
        assert(first_sorted =~= second_sorted);
    }
}

} // verus!
