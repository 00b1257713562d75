//! The telemetry snapshot model: an immutable point-in-time view produced at a
//! caller-chosen detail level, holding named numeric leaves (kept in strict
//! lexicographic name order) and named identifying fields, plus the pure,
//! idempotent anonymization that strips the identifying fields.

use vstd::prelude::*;
use vstd::string::*;
use crate::text::{lex_lt, str_lt, lemma_lex_lt_irrefl, lemma_lex_lt_connex, lemma_lex_lt_trans};

verus! {

/// One numeric leaf of the telemetry payload: a hierarchical metric name and
/// its counter value.
#[derive(Clone, Debug, PartialEq)]
pub struct TelemetryEntry {
    pub name: String,
    pub value: u64,
}

/// One identifying field of the telemetry payload (a host name, an id):
/// exactly what anonymization removes.
#[derive(Clone, Debug, PartialEq)]
pub struct TelemetryIdentifier {
    pub name: String,
    pub value: String,
}

/// The mathematical observation of a snapshot.
#[verifier::ext_equal]
pub ghost struct SnapshotView {
    pub details_level: nat,
    pub entries: Seq<TelemetryEntry>,
    pub identifiers: Seq<TelemetryIdentifier>,
    pub anonymized: bool,
}

/// A point-in-time telemetry view. Immutable once produced; building it is
/// the collector's job, reading and transforming it is this crate's.
#[derive(Clone, Debug, PartialEq)]
pub struct TelemetrySnapshot {
    pub details_level: usize,
    pub entries: Vec<TelemetryEntry>,
    pub identifiers: Vec<TelemetryIdentifier>,
    pub anonymized: bool,
}

impl View for TelemetrySnapshot {
    type V = SnapshotView;

    open spec fn view(&self) -> SnapshotView {
        SnapshotView {
            details_level: self.details_level as nat,
            entries: self.entries@,
            identifiers: self.identifiers@,
            anonymized: self.anonymized,
        }
    }
}

/// The numeric leaves stand in strictly ascending name order: sorted, with no
/// name occurring twice.
pub open spec fn entries_sorted(entries: Seq<TelemetryEntry>) -> bool {
    forall|i: int, j: int|
        0 <= i < j < entries.len() ==> lex_lt(entries[i].name@, entries[j].name@)
}

/// Where a new leaf lands in a sorted sequence: before the first name not
/// below its own, replacing that name's leaf if the names are equal.
pub open spec fn insert_entry(entries: Seq<TelemetryEntry>, e: TelemetryEntry) -> Seq<
    TelemetryEntry,
>
    decreases entries.len(),
{
    if entries.len() == 0 {
        seq![e]
    } else if lex_lt(e.name@, entries[0].name@) {
        seq![e] + entries
    } else if e.name@ == entries[0].name@ {
        seq![e] + entries.skip(1)
    } else {
        seq![entries[0]] + insert_entry(entries.skip(1), e)
    }
}

/// Anonymization, as a pure projection of the observation: the identifying
/// fields are gone, the numeric payload and detail level stay.
pub open spec fn anonymize_spec(v: SnapshotView) -> SnapshotView {
    SnapshotView { identifiers: Seq::empty(), anonymized: true, ..v }
}

/// Law: anonymization is idempotent — anonymizing an already-anonymized
/// snapshot changes nothing.
pub proof fn lemma_anonymize_idempotent(v: SnapshotView)
    ensures
        anonymize_spec(anonymize_spec(v)) == anonymize_spec(v),
{
    assert(anonymize_spec(anonymize_spec(v)) =~= anonymize_spec(v));
}

impl TelemetrySnapshot {
    /// The snapshot's internal invariant: its numeric leaves are strictly
    /// sorted by name.
    pub open spec fn wf(&self) -> bool {
        entries_sorted(self@.entries)
    }

    /// A fresh, empty snapshot at the given detail level.
    pub fn new(details_level: usize) -> (r: TelemetrySnapshot)
        ensures
            r.wf(),
            r@.details_level == details_level,
            r@.entries.len() == 0,
            r@.identifiers.len() == 0,
            !r@.anonymized,
    {
        TelemetrySnapshot {
            details_level,
            entries: Vec::new(),
            identifiers: Vec::new(),
            anonymized: false,
        }
    }

    /// Records one identifying field.
    pub fn add_identifier(&mut self, name: String, value: String)
        ensures
            final(self)@ == (SnapshotView {
                identifiers: old(self)@.identifiers.push(TelemetryIdentifier { name, value }),
                ..old(self)@
            }),
            final(self).wf() == old(self).wf(),
    {
        self.identifiers.push(TelemetryIdentifier { name, value });
        proof {
            assert(self@ =~= (SnapshotView {
                identifiers: old(self)@.identifiers.push(
                    TelemetryIdentifier { name: name, value: value }),
                ..old(self)@
            }));
        }
    }

    /// Records one numeric leaf, keeping the leaves sorted; a leaf whose name
    /// is already present is replaced.
    pub fn add_metric(&mut self, name: String, value: u64)
        requires
            old(self).wf(),
        ensures
            final(self).wf(),
            final(self)@ == (SnapshotView {
                entries: insert_entry(old(self)@.entries, TelemetryEntry { name, value }),
                ..old(self)@
            }),
    {
        let e = TelemetryEntry { name, value };
        let n = self.entries.len();
        let mut k: usize = 0;
        loop
            invariant
                k <= n,
                n == self.entries.len(),
                *self == *old(self),
                entries_sorted(self@.entries),
                forall|i: int| 0 <= i < k ==> lex_lt(#[trigger] self@.entries[i].name@, e.name@),
            ensures
                k <= n,
                n == self.entries.len(),
                *self == *old(self),
                forall|i: int| 0 <= i < k ==> lex_lt(#[trigger] self@.entries[i].name@, e.name@),
                k < n ==> !lex_lt(self@.entries[k as int].name@, e.name@),
            decreases n - k,
        {
            if k == n {
                break;
            }
            if !str_lt(self.entries[k].name.as_str(), e.name.as_str()) {
                break;
            }
            k += 1;
        }
        let ghost before = self@.entries;
        if k < n && self.entries[k].name == e.name {
            self.entries.remove(k);
            self.entries.insert(k, e);
            proof {
                lemma_insert_entry_at(before, e, k as int);
                assert(self@.entries =~= before.take(k as int) + seq![e] + before.skip(
                    k as int + 1));
                lemma_sorted_after_insert(before, e, k as int, true);
                assert(self@ =~= (SnapshotView {
                    entries: insert_entry(old(self)@.entries, e),
                    ..old(self)@
                }));
            }
        } else {
            proof {
                if k < n {
                    if !lex_lt(e.name@, self@.entries[k as int].name@) {
                        lemma_lex_lt_connex(e.name@, self@.entries[k as int].name@);
                        assert(false);
                    }
                }
            }
            self.entries.insert(k, e);
            proof {
                lemma_insert_entry_at(before, e, k as int);
                assert(self@.entries =~= before.take(k as int) + seq![e] + before.skip(k as int));
                lemma_sorted_after_insert(before, e, k as int, false);
                assert(self@ =~= (SnapshotView {
                    entries: insert_entry(old(self)@.entries, e),
                    ..old(self)@
                }));
            }
        }
    }

    /// Strips every identifying field and marks the snapshot anonymized; the
    /// numeric payload and detail level are untouched. Pure and one-way.
    pub fn anonymize(self) -> (r: TelemetrySnapshot)
        ensures
            r@ == anonymize_spec(self@),
            r.wf() == self.wf(),
    {
        let r = TelemetrySnapshot {
            details_level: self.details_level,
            entries: self.entries,
            identifiers: Vec::new(),
            anonymized: true,
        };
        proof {
            assert(r@ =~= anonymize_spec(self@));
        }
        r
    }
}

/// Law: what `add_metric` leaves in the snapshot — the new leaf, plus every
/// old leaf whose name differs, and nothing else. Chained over a build, the
/// leaves depend only on the final name-to-value association, never on the
/// order the metrics were added in; with `lemma_metrics_text_canonical` the
/// rendered metrics text is then canonical too.
pub proof fn lemma_insert_entry_members(
    entries: Seq<TelemetryEntry>,
    e: TelemetryEntry,
    x: TelemetryEntry,
)
    requires
        entries_sorted(entries),
    ensures
        insert_entry(entries, e).contains(x) <==> (x == e || (entries.contains(x) && x.name@
            != e.name@)),
    decreases entries.len(),
{
    if entries.len() == 0 {
        assert(insert_entry(entries, e) =~= seq![e]);
        assert(insert_entry(entries, e)[0] == e);
        assert(!entries.contains(x));
    } else if lex_lt(e.name@, entries[0].name@) {
        let r = seq![e] + entries;
        assert(r[0] == e);
        assert(forall|m: int| 0 <= m < entries.len() ==> r[m + 1] == entries[m]);
        if entries.contains(x) {
            let m = choose|m: int| 0 <= m < entries.len() && entries[m] == x;
            if x.name@ == e.name@ {
                if m > 0 {
                    lemma_lex_lt_trans(e.name@, entries[0].name@, entries[m].name@);
                }
                lemma_lex_lt_irrefl(e.name@);
                assert(false);
            }
            assert(r[m + 1] == x);
        }
        if r.contains(x) && x != e {
            let m = choose|m: int| 0 <= m < r.len() && r[m] == x;
            assert(m > 0);
            assert(entries[m - 1] == x);
        }
    } else if e.name@ == entries[0].name@ {
        let r = seq![e] + entries.skip(1);
        assert(r[0] == e);
        assert(forall|m: int| 0 <= m < entries.skip(1).len() ==> #[trigger] r[m + 1] == entries[m
            + 1]);
        if entries.contains(x) && x.name@ != e.name@ {
            let m = choose|m: int| 0 <= m < entries.len() && entries[m] == x;
            assert(m > 0);
            assert(r[m] == x);
        }
        if r.contains(x) && x != e {
            let m = choose|m: int| 0 <= m < r.len() && r[m] == x;
            assert(m > 0);
            assert(entries[m] == x);
            assert(lex_lt(entries[0].name@, entries[m].name@));
            if x.name@ == e.name@ {
                lemma_lex_lt_irrefl(e.name@);
                assert(false);
            }
        }
    } else {
        let rest = entries.skip(1);
        assert(entries_sorted(rest)) by {
            assert(forall|p: int, q: int|
                0 <= p < q < rest.len() ==> lex_lt(rest[p].name@, rest[q].name@));
        }
        if lex_lt(e.name@, entries[0].name@) {
            assert(false);
        }
        if !lex_lt(entries[0].name@, e.name@) {
            lemma_lex_lt_connex(e.name@, entries[0].name@);
            assert(false);
        }
        lemma_insert_entry_members(rest, e, x);
        let r = seq![entries[0]] + insert_entry(rest, e);
        assert(insert_entry(entries, e) == r);
        assert(r[0] == entries[0]);
        assert(forall|m: int|
            0 <= m < insert_entry(rest, e).len() ==> r[m + 1] == insert_entry(rest, e)[m]);
        if entries[0].name@ == e.name@ {
            lemma_lex_lt_irrefl(e.name@);
            assert(false);
        }
        if r.contains(x) {
            let m = choose|m: int| 0 <= m < r.len() && r[m] == x;
            if m == 0 {
                assert(x == entries[0]);
                assert(entries.contains(x)) by {
                    assert(entries[0] == x);
                }
            } else {
                assert(insert_entry(rest, e).contains(x)) by {
                    assert(insert_entry(rest, e)[m - 1] == x);
                }
                if x != e {
                    assert(rest.contains(x));
                    let p = choose|p: int| 0 <= p < rest.len() && rest[p] == x;
                    assert(entries[p + 1] == x);
                    assert(entries.contains(x));
                }
            }
        }
        if x == e {
            assert(insert_entry(rest, e).contains(e));
            let m = choose|m: int| 0 <= m < insert_entry(rest, e).len() && insert_entry(rest, e)[m]
                == e;
            assert(r[m + 1] == e);
            assert(r.contains(x));
        } else if entries.contains(x) && x.name@ != e.name@ {
            let m = choose|m: int| 0 <= m < entries.len() && entries[m] == x;
            if m == 0 {
                assert(r[0] == x);
                assert(r.contains(x));
            } else {
                assert(rest[m - 1] == x);
                assert(rest.contains(x));
                assert(insert_entry(rest, e).contains(x));
                let p = choose|p: int|
                    0 <= p < insert_entry(rest, e).len() && insert_entry(rest, e)[p] == x;
                assert(r[p + 1] == x);
                assert(r.contains(x));
            }
        }
    }
}

/// Shape of `insert_entry` at the insertion point: once every name before `k`
/// is below `e`'s and the name at `k` (if any) is not, inserting is splicing
/// `e` in at `k`, dropping the leaf at `k` exactly when its name equals `e`'s.
proof fn lemma_insert_entry_at(entries: Seq<TelemetryEntry>, e: TelemetryEntry, k: int)
    requires
        0 <= k <= entries.len(),
        forall|i: int| 0 <= i < k ==> lex_lt(#[trigger] entries[i].name@, e.name@),
        k < entries.len() ==> !lex_lt(entries[k].name@, e.name@),
    ensures
        k < entries.len() && entries[k].name@ == e.name@ ==> insert_entry(entries, e) == entries
            .take(k) + seq![e] + entries.skip(k + 1),
        !(k < entries.len() && entries[k].name@ == e.name@) ==> insert_entry(entries, e) == entries
            .take(k) + seq![e] + entries.skip(k),
    decreases entries.len(),
{
    if entries.len() == 0 {
        assert(insert_entry(entries, e) =~= entries.take(0) + seq![e] + entries.skip(0));
    } else if k == 0 {
        if lex_lt(e.name@, entries[0].name@) {
            if e.name@ == entries[0].name@ {
                lemma_lex_lt_irrefl(e.name@);
                assert(false);
            }
            assert(insert_entry(entries, e) =~= entries.take(0) + seq![e] + entries.skip(0));
        } else if e.name@ == entries[0].name@ {
            assert(insert_entry(entries, e) =~= entries.take(0) + seq![e] + entries.skip(1));
        } else {
            lemma_lex_lt_connex(e.name@, entries[0].name@);
            assert(false);
        }
    } else {
        assert(lex_lt(entries[0].name@, e.name@));
        if lex_lt(e.name@, entries[0].name@) {
            lemma_lex_lt_trans(e.name@, entries[0].name@, e.name@);
            lemma_lex_lt_irrefl(e.name@);
            assert(false);
        }
        if e.name@ == entries[0].name@ {
            lemma_lex_lt_irrefl(e.name@);
            assert(false);
        }
        let rest = entries.skip(1);
        assert(forall|i: int| 0 <= i < k - 1 ==> lex_lt(#[trigger] rest[i].name@, e.name@));
        lemma_insert_entry_at(rest, e, k - 1);
        if k < entries.len() && entries[k].name@ == e.name@ {
            assert(rest.skip(k) =~= entries.skip(k + 1));
            assert(seq![entries[0]] + (rest.take(k - 1) + seq![e] + rest.skip(k)) =~= entries.take(
                k) + seq![e] + entries.skip(k + 1));
        } else {
            assert(rest.skip(k - 1) =~= entries.skip(k));
            assert(seq![entries[0]] + (rest.take(k - 1) + seq![e] + rest.skip(k - 1)) =~= entries
                .take(k) + seq![e] + entries.skip(k));
        }
    }
}

/// Splicing a leaf in at its insertion point keeps the leaves strictly
/// sorted.
proof fn lemma_sorted_after_insert(entries: Seq<TelemetryEntry>, e: TelemetryEntry, k: int, replace: bool)
    requires
        entries_sorted(entries),
        0 <= k <= entries.len(),
        forall|i: int| 0 <= i < k ==> lex_lt(#[trigger] entries[i].name@, e.name@),
        replace ==> k < entries.len() && entries[k].name@ == e.name@,
        !replace && k < entries.len() ==> lex_lt(e.name@, entries[k].name@),
    ensures
        replace ==> entries_sorted(entries.take(k) + seq![e] + entries.skip(k + 1)),
        !replace ==> entries_sorted(entries.take(k) + seq![e] + entries.skip(k)),
{
    if replace {
        let s = entries.take(k) + seq![e] + entries.skip(k + 1);
        assert forall|i: int, j: int| 0 <= i < j < s.len() implies lex_lt(
            s[i].name@,
            s[j].name@,
        ) by {
            assert(forall|m: int| 0 <= m < k ==> s[m] == entries[m]);
            assert(forall|m: int| k < m < s.len() ==> s[m] == entries[m]);
            if i == k && j > k {
                assert(lex_lt(entries[k].name@, entries[j].name@));
            } else if j == k && i < k {
                assert(lex_lt(entries[i].name@, entries[k].name@));
            }
        }
    } else {
        let s = entries.take(k) + seq![e] + entries.skip(k);
        assert forall|i: int, j: int| 0 <= i < j < s.len() implies lex_lt(
            s[i].name@,
            s[j].name@,
        ) by {
            assert(forall|m: int| 0 <= m < k ==> s[m] == entries[m]);
            assert(forall|m: int| k < m < s.len() ==> s[m] == entries[m - 1]);
            if i == k && j > k {
                if j - 1 > k {
                    lemma_lex_lt_trans(e.name@, entries[k].name@, entries[j - 1].name@);
                }
            }
        }
    }
}

} // verus!
