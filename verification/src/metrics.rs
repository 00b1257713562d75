//! The flat metrics projection: every numeric leaf of a telemetry snapshot
//! becomes one `name value` line, emitted in the snapshot's strict
//! lexicographic name order, so that the rendered text is a canonical function
//! of the leaves themselves.

use vstd::prelude::*;
use vstd::string::*;
use crate::telemetry::{TelemetryEntry, TelemetrySnapshot, entries_sorted};
use crate::text::{dec_digits, lex_lt, lemma_lex_lt_irrefl, lemma_lex_lt_trans, push_u64_decimal};

verus! {

/// The flat, line-oriented metrics representation of one snapshot: only the
/// numeric leaves survive the projection, in sorted name order.
#[derive(Clone, Debug, PartialEq)]
pub struct MetricsData {
    pub entries: Vec<TelemetryEntry>,
}

/// One rendered metrics line: the leaf's name, a space, its value in
/// decimal, a newline.
pub open spec fn metrics_line(e: TelemetryEntry) -> Seq<char> {
    e.name@ + " "@ + dec_digits(e.value as nat) + "\n"@
}

/// The rendered metrics text: the lines of all leaves, in sequence order.
pub open spec fn metrics_text(entries: Seq<TelemetryEntry>) -> Seq<char>
    decreases entries.len(),
{
    if entries.len() == 0 {
        Seq::empty()
    } else {
        metrics_text(entries.drop_last()) + metrics_line(entries.last())
    }
}

impl MetricsData {
    /// The leaves stand in strict lexicographic name order.
    pub open spec fn wf(&self) -> bool {
        entries_sorted(self.entries@)
    }

    /// Renders the flat metrics text. The result is a pure function of the
    /// leaves: two calls on unchanged data produce byte-identical text.
    pub fn format_metrics(&self) -> (r: String)
        ensures
            r@ == metrics_text(self.entries@),
    {
        let mut out = String::new();
        let n = self.entries.len();
        let mut i: usize = 0;
        proof {
            assert(self.entries@.take(0) =~= Seq::<TelemetryEntry>::empty());
        }
        while i < n
            invariant
                i <= n,
                n == self.entries.len(),
                out@ == metrics_text(self.entries@.take(i as int)),
            decreases n - i,
        {
            let e = &self.entries[i];
            out.append(e.name.as_str());
            out.append(" ");
            push_u64_decimal(&mut out, e.value);
            out.append("\n");
            proof {
                let pre = self.entries@.take(i as int);
                let post = self.entries@.take(i as int + 1);
                assert(post.drop_last() =~= pre);
                assert(post.last() == self.entries@[i as int]);
                assert(out@ =~= metrics_text(pre) + metrics_line(self.entries@[i as int]));
                assert(out@ == metrics_text(post));
            }
            i += 1;
        }
        proof {
            assert(self.entries@.take(n as int) =~= self.entries@);
        }
        out
    }
}

impl From<TelemetrySnapshot> for MetricsData {
    /// The one-way projection from a structured snapshot: keeps exactly the
    /// numeric leaves, in their sorted order; detail level, identifying
    /// fields and the anonymization flag do not reach the metrics view.
    fn from(data: TelemetrySnapshot) -> (r: MetricsData) {
        MetricsData { entries: data.entries }
    }
}

impl vstd::std_specs::convert::FromSpecImpl<TelemetrySnapshot> for MetricsData {
    open spec fn obeys_from_spec() -> bool {
        true
    }

    open spec fn from_spec(data: TelemetrySnapshot) -> MetricsData {
        MetricsData { entries: data.entries }
    }
}

/// Law: the metrics order is canonical. Two sorted leaf sequences that hold
/// the same leaves are the same sequence and render to byte-identical text,
/// however the leaves were added.
pub proof fn lemma_metrics_text_canonical(a: Seq<TelemetryEntry>, b: Seq<TelemetryEntry>)
    requires
        entries_sorted(a),
        entries_sorted(b),
        forall|e: TelemetryEntry| a.contains(e) <==> b.contains(e),
    ensures
        a == b,
        metrics_text(a) == metrics_text(b),
    decreases a.len(),
{
    if a.len() == 0 {
        if b.len() > 0 {
            assert(b.contains(b[0]));
            assert(a.contains(b[0]));
            assert(false);
        }
        assert(a =~= b);
    } else {
        assert(a.contains(a[0]));
        assert(b.contains(a[0]));
        let j = choose|j: int| 0 <= j < b.len() && b[j] == a[0];
        assert(b.contains(b[0]));
        assert(a.contains(b[0]));
        let i = choose|i: int| 0 <= i < a.len() && a[i] == b[0];
        if i > 0 && j > 0 {
            assert(lex_lt(a[0].name@, a[i].name@));
            assert(lex_lt(b[0].name@, b[j].name@));
            lemma_lex_lt_trans(a[0].name@, b[0].name@, a[0].name@);
            lemma_lex_lt_irrefl(a[0].name@);
            assert(false);
        }
        assert(a[0] == b[0]);
        let at = a.skip(1);
        let bt = b.skip(1);
        assert(forall|m: int| 0 <= m < at.len() ==> at[m] == a[m + 1]);
        assert(forall|m: int| 0 <= m < bt.len() ==> bt[m] == b[m + 1]);
        assert(entries_sorted(at)) by {
            assert(forall|p: int, q: int|
                0 <= p < q < at.len() ==> lex_lt(at[p].name@, at[q].name@));
        }
        assert(entries_sorted(bt)) by {
            assert(forall|p: int, q: int|
                0 <= p < q < bt.len() ==> lex_lt(bt[p].name@, bt[q].name@));
        }
        assert forall|e: TelemetryEntry| at.contains(e) <==> bt.contains(e) by {
            if at.contains(e) {
                let m = choose|m: int| 0 <= m < at.len() && at[m] == e;
                assert(a.contains(e));
                assert(b.contains(e));
                let j2 = choose|j2: int| 0 <= j2 < b.len() && b[j2] == e;
                if j2 == 0 {
                    assert(e == a[0]);
                    assert(lex_lt(a[0].name@, a[m + 1].name@));
                    lemma_lex_lt_irrefl(a[0].name@);
                    assert(false);
                }
                assert(bt[j2 - 1] == e);
                assert(bt.contains(e));
            }
            if bt.contains(e) {
                let m = choose|m: int| 0 <= m < bt.len() && bt[m] == e;
                assert(b.contains(e));
                assert(a.contains(e));
                let i2 = choose|i2: int| 0 <= i2 < a.len() && a[i2] == e;
                if i2 == 0 {
                    assert(e == b[0]);
                    assert(lex_lt(b[0].name@, b[m + 1].name@));
                    lemma_lex_lt_irrefl(b[0].name@);
                    assert(false);
                }
                assert(at[i2 - 1] == e);
                assert(at.contains(e));
            }
        }
        lemma_metrics_text_canonical(at, bt);
        assert(a =~= b) by {
            assert(forall|m: int| 1 <= m < a.len() ==> a[m] == at[m - 1]);
            assert(forall|m: int| 1 <= m < b.len() ==> b[m] == bt[m - 1]);
        }
    }
}

} // verus!
