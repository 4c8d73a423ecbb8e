//! The Prometheus renderer: accumulates counters and gauges in an
//! append-only text buffer, aggregates histogram observations per key,
//! and finalizes everything into one exposition-format string.

use vstd::prelude::*;
use vstd::multiset::Multiset;
use vstd::string::StringExecFns;

use crate::key::{Key, KeyView};
use crate::numfmt::{dec_digits, dec_signed, i64_to_dec, u64_to_dec};
use crate::quantile::{
    parse_quantiles, permilles_of, quantile_label, quantiles_wf, Quantile, QuantileError,
};
use crate::render::{
    append_metric_block, key_to_parts, label_strs, labeled_name, metric_block,
    render_labeled_name, sanitize,
};
use crate::sketch::{bucket_of, spec_value_at, Sketch, SketchError};

verus! {

/// A value that records metrics, one operation per metric kind. Repeated
/// calls with one key are allowed: histograms accumulate, while counters
/// and gauges are independent appends. A histogram recording fault is
/// surfaced to the caller, never swallowed.
pub trait Recorder {
    /// When the recorder is in a state fit to record into.
    spec fn inv(&self) -> bool;

    /// Records a counter.
    fn record_counter(&mut self, key: Key, value: u64)
        requires
            old(self).inv(),
        ensures
            final(self).inv(),
    ;

    /// Records a gauge.
    fn record_gauge(&mut self, key: Key, value: i64)
        requires
            old(self).inv(),
        ensures
            final(self).inv(),
    ;

    /// Records a batch of histogram observations.
    fn record_histogram(&mut self, key: Key, values: &[u64]) -> (r: Result<(), SketchError>)
        requires
            old(self).inv(),
        ensures
            final(self).inv(),
    ;
}

/// A value that holds a point-in-time view of collected metrics.
pub trait Snapshot {
    /// Records the snapshot to the given recorder.
    fn record<R: Recorder>(&self, recorder: &mut R) -> (r: Result<(), SketchError>)
        requires
            old(recorder).inv(),
        ensures
            final(recorder).inv(),
    ;
}

/// A value that can provide on-demand snapshots.
pub trait SnapshotProvider {
    /// Snapshot given by the provider.
    type Snapshot: Snapshot;

    /// Errors produced during generation.
    type SnapshotError;

    /// Gets a snapshot.
    fn get_snapshot(&self) -> Result<Self::Snapshot, Self::SnapshotError>;
}

/// A value usable as a nanosecond time measurement.
pub trait AsNanoseconds {
    /// Performs the conversion.
    fn as_nanos(&self) -> u64;
}

impl AsNanoseconds for u64 {
    fn as_nanos(&self) -> u64 {
        *self
    }
}

/// Relies on std::time::Duration::as_nanos: the duration in whole
/// nanoseconds, truncated to 64 bits.
#[verifier::external_body]
fn duration_as_nanos_u64(d: &core::time::Duration) -> u64 {
    (*d).as_nanos() as u64
}

impl AsNanoseconds for core::time::Duration {
    fn as_nanos(&self) -> u64 {
        duration_as_nanos_u64(self)
    }
}

/// One histogram time series: a running sum and count of observations,
/// and the sketch summarizing their distribution.
pub struct HistEntry {
    /// Saturating sum of all recorded values.
    pub sum: u64,
    /// Saturating count of all recorded values.
    pub count: u64,
    /// The value-distribution sketch.
    pub sketch: Sketch,
}

/// The mathematical value of a histogram entry.
pub ghost struct EntryView {
    pub sum: u64,
    pub count: u64,
    pub values: Multiset<u64>,
}

impl View for HistEntry {
    type V = EntryView;

    open spec fn view(&self) -> EntryView {
        EntryView { sum: self.sum, count: self.count, values: self.sketch@ }
    }
}

/// The mathematical value of a renderer: its quantile configuration, its
/// histogram entries keyed in insertion order, and the text accumulated
/// so far.
pub ghost struct RendererView {
    pub quantiles: Seq<Quantile>,
    pub histos: Seq<(KeyView, EntryView)>,
    pub output: Seq<char>,
}

/// Addition into a `u64` that sticks at the maximum.
pub open spec fn sat64(n: int) -> u64 {
    if n > u64::MAX {
        u64::MAX
    } else {
        (if n < 0 {
            0
        } else {
            n
        }) as u64
    }
}

/// Saturating `u64` addition.
fn sat_add_u64(a: u64, b: u64) -> (r: u64)
    ensures
        r == sat64(a + b),
{
    if a > u64::MAX - b {
        u64::MAX
    } else {
        a + b
    }
}

/// A fresh histogram entry, before any observation.
pub open spec fn empty_entry() -> EntryView {
    EntryView { sum: 0, count: 0, values: Multiset::empty() }
}

/// One observation folded into an entry: the sum and count saturate, and
/// the sketch keeps the observation's bucket value.
pub open spec fn entry_plus(e: EntryView, v: u64) -> EntryView {
    EntryView {
        sum: sat64(e.sum + v),
        count: sat64(e.count + 1),
        values: e.values.insert(bucket_of(v)),
    }
}

/// A batch of observations folded into an entry, in order.
pub open spec fn entry_after(e: EntryView, vs: Seq<u64>) -> EntryView
    decreases vs.len(),
{
    if vs.len() == 0 {
        e
    } else {
        entry_plus(entry_after(e, vs.drop_last()), vs.last())
    }
}

/// Whether some entry carries the key.
pub open spec fn has_key(hs: Seq<(KeyView, EntryView)>, k: KeyView) -> bool {
    exists|i: int| 0 <= i < hs.len() && (#[trigger] hs[i]).0 == k
}

/// The index of the entry carrying the key.
pub open spec fn key_index(hs: Seq<(KeyView, EntryView)>, k: KeyView) -> int {
    choose|i: int| 0 <= i < hs.len() && (#[trigger] hs[i]).0 == k
}

/// No two entries carry the same key.
pub open spec fn keys_unique(hs: Seq<(KeyView, EntryView)>) -> bool {
    forall|i: int, j: int| 0 <= i < j < hs.len() ==> (#[trigger] hs[i]).0 != (#[trigger] hs[j]).0
}

/// What one `record_histogram` call does to the entry sequence: the
/// batch folds into the keyed entry, created empty on first use.
pub open spec fn spec_record_hist(
    hs: Seq<(KeyView, EntryView)>,
    k: KeyView,
    vs: Seq<u64>,
) -> Seq<(KeyView, EntryView)> {
    if has_key(hs, k) {
        let i = key_index(hs, k);
        hs.update(i, (k, entry_after(hs[i].1, vs)))
    } else {
        hs.push((k, entry_after(empty_entry(), vs)))
    }
}

/// The header line written at construction: a snapshot marker with a
/// Unix timestamp in seconds.
pub open spec fn header_text(ts: u64) -> Seq<char> {
    "# metrics snapshot (ts="@ + dec_digits(ts as nat) + ") (prometheus exposition format)"@
}

/// Relies on std::time::SystemTime::now and duration_since: the seconds
/// of the wall clock since the Unix epoch, or 0 when the clock reads
/// before the epoch. The result depends on the clock, so nothing more is
/// promised of it.
#[verifier::external_body]
fn unix_time_secs() -> u64 {
    std::time::SystemTime::now().duration_since(std::time::SystemTime::UNIX_EPOCH).map(
        |d| d.as_secs(),
    ).unwrap_or(0)
}

/// Builds the exposition header for a given timestamp.
pub fn header_for_timestamp(ts: u64) -> (r: String)
    ensures
        r@ == header_text(ts),
{
    proof {
        reveal_strlit("# metrics snapshot (ts=");
        reveal_strlit(") (prometheus exposition format)");
    }
    let mut out = String::from_str("# metrics snapshot (ts=");
    let digits = u64_to_dec(ts);
    out.append(digits.as_str());
    out.append(") (prometheus exposition format)");
    out
}

/// Builds the exposition header stamped with the current wall-clock time,
/// or 0 when the clock is unavailable.
pub fn get_prom_expo_header() -> (r: String)
    ensures
        exists|ts: u64| r@ == header_text(ts),
{
    let ts = unix_time_secs();
    let out = header_for_timestamp(ts);
    proof {
        assert(out@ == header_text(ts));
    }
    out
}

/// Records metrics and renders them in the Prometheus exposition format.
/// Counters and gauges append text immediately; histogram observations
/// aggregate per key until finalization.
pub struct PrometheusRecorder {
    quantiles: Vec<Quantile>,
    histos: Vec<(Key, HistEntry)>,
    output: String,
}

impl View for PrometheusRecorder {
    type V = RendererView;

    closed spec fn view(&self) -> RendererView {
        RendererView {
            quantiles: self.quantiles@,
            histos: self.histos@.map_values(|p: (Key, HistEntry)| (p.0@, p.1@)),
            output: self.output@,
        }
    }
}

impl PrometheusRecorder {
    /// The renderer's invariant: its quantiles are valid and no key owns
    /// two histogram entries.
    pub open spec fn wf(&self) -> bool {
        quantiles_wf(self@.quantiles) && keys_unique(self@.histos)
    }

    /// Creates a renderer with the default quantiles 0.0, 0.5, 0.9,
    /// 0.95, 0.99, 0.999 and 1.0.
    pub fn new() -> (r: PrometheusRecorder)
        ensures
            r.wf(),
            permilles_of(r@.quantiles) == crate::quantile::default_permilles(),
            r@.histos.len() == 0,
            exists|ts: u64| r@.output == header_text(ts),
    {
        let quantiles = crate::quantile::default_quantiles();
        let header = get_prom_expo_header();
        PrometheusRecorder { quantiles, histos: Vec::new(), output: header }
    }

    /// Creates a renderer with the given quantiles, in permille. A value
    /// above 1000 is a configuration fault reported here, at
    /// construction, never deferred.
    pub fn with_quantiles(raw: &Vec<u16>) -> (r: Result<PrometheusRecorder, QuantileError>)
        ensures
            r is Ok <==> (forall|i: int| 0 <= i < raw@.len() ==> raw@[i] <= 1000),
            r matches Ok(rec) ==> {
                &&& rec.wf()
                &&& rec@.quantiles.len() == raw@.len()
                &&& forall|i: int|
                    0 <= i < raw@.len() ==> (#[trigger] rec@.quantiles[i]).permille == raw@[i]
                &&& rec@.histos.len() == 0
                &&& exists|ts: u64| rec@.output == header_text(ts)
            },
            r is Err ==> r->Err_0 == QuantileError::OutOfRange,
    {
        let quantiles = match parse_quantiles(raw) {
            Ok(qs) => qs,
            Err(e) => {
                return Err(e);
            },
        };
        let header = get_prom_expo_header();
        Ok(PrometheusRecorder { quantiles, histos: Vec::new(), output: header })
    }

}

/// Finds the histogram entry carrying the key, if one exists.
fn find_entry(hs: &Vec<(Key, HistEntry)>, key: &Key) -> (r: Option<usize>)
    ensures
        r matches Some(i) ==> i < hs@.len() && hs@[i as int].0@ == key@,
        r is None ==> forall|j: int| 0 <= j < hs@.len() ==> (#[trigger] hs@[j]).0@ != key@,
{
    let n = hs.len();
    let mut i: usize = 0;
    while i < n
        invariant
            n == hs@.len(),
            i <= n,
            forall|j: int| 0 <= j < i ==> (#[trigger] hs@[j]).0@ != key@,
        decreases n - i,
    {
        if hs[i].0 == *key {
            return Some(i);
        }
        i = i + 1;
    }
    None
}

impl Recorder for PrometheusRecorder {
    /// The recorder is fit to record into while its invariant holds.
    open spec fn inv(&self) -> bool {
        self.wf()
    }

    /// Appends a TYPE declaration and one sample line for a counter.
    /// Every call appends: repeated keys produce repeated lines.
    fn record_counter(&mut self, key: Key, value: u64)
        ensures
            final(self)@.output == old(self)@.output + metric_block(
                key@,
                "counter"@,
                dec_digits(value as nat),
            ),
            final(self)@.quantiles == old(self)@.quantiles,
            final(self)@.histos == old(self)@.histos,
    {
        let text = u64_to_dec(value);
        append_metric_block(&mut self.output, &key, "counter", text.as_str());
    }

    /// Appends a TYPE declaration and one sample line for a gauge.
    /// Every call appends: repeated keys produce repeated lines.
    fn record_gauge(&mut self, key: Key, value: i64)
        ensures
            final(self)@.output == old(self)@.output + metric_block(
                key@,
                "gauge"@,
                dec_signed(value as int),
            ),
            final(self)@.quantiles == old(self)@.quantiles,
            final(self)@.histos == old(self)@.histos,
    {
        let text = i64_to_dec(value);
        append_metric_block(&mut self.output, &key, "gauge", text.as_str());
    }

    /// Folds a batch of observations into the entry for the key, created
    /// empty on first use. Appends no text: histograms render only at
    /// finalization. A sketch fault stops the batch and is returned, with
    /// the values before it recorded; an empty batch, or one whose values
    /// all lie below 2048, never faults.
    fn record_histogram(&mut self, key: Key, values: &[u64]) -> (r: Result<(), SketchError>)
        ensures
            final(self)@.output == old(self)@.output,
            final(self)@.quantiles == old(self)@.quantiles,
            values@.len() == 0 ==> r is Ok,
            (forall|i: int| 0 <= i < values@.len() ==> values@[i] < 2048) ==> r is Ok,
            r is Ok ==> final(self)@.histos == spec_record_hist(
                old(self)@.histos,
                key@,
                values@,
            ),
            r is Err ==> exists|i: int|
                0 <= i <= values@.len() && final(self)@.histos == spec_record_hist(
                    old(self)@.histos,
                    key@,
                    values@.take(i),
                ),
    {
        let ghost hs0 = self@.histos;
        let ghost kv = key@;
        let idx: usize;
        match find_entry(&self.histos, &key) {
            Some(i) => {
                idx = i;
                proof {
                    assert(has_key(hs0, kv));
                    let ci = key_index(hs0, kv);
                    if ci != idx {
                        assert(hs0[ci].0 == kv && hs0[idx as int].0 == kv);
                        assert(false);
                    }
                }
            },
            None => {
                idx = self.histos.len();
                let entry = HistEntry { sum: 0, count: 0, sketch: Sketch::new() };
                self.histos.push((key, entry));
                proof {
                    assert(!has_key(hs0, kv));
                    assert(self@.histos =~= hs0.push((kv, empty_entry())));
                }
            },
        }
        let ghost hs1 = self@.histos;
        proof {
            assert(hs1[idx as int].0 == kv);
        }
        let mut pair = self.histos.remove(idx);
        let ghost rest = self@.histos;
        let ghost e0 = pair.1@;
        proof {
            assert(rest =~= hs1.remove(idx as int));
        }
        let m = values.len();
        let mut j: usize = 0;
        while j < m
            invariant
                j <= m,
                m == values@.len(),
                self@.histos == rest,
                self@.output == old(self)@.output,
                self@.quantiles == old(self)@.quantiles,
                quantiles_wf(self@.quantiles),
                pair.0@ == kv,
                pair.1@ == entry_after(e0, values@.take(j as int)),
                kv == key@,
                hs0 == old(self)@.histos,
                keys_unique(hs0),
                0 <= (idx as int) && (idx as int) < hs1.len(),
                hs1[idx as int].0 == kv,
                e0 == hs1[idx as int].1,
                rest == hs1.remove(idx as int),
                (has_key(hs0, kv) && hs1 == hs0 && key_index(hs0, kv) == idx as int) || (!has_key(
                    hs0,
                    kv,
                ) && hs1 == hs0.push((kv, empty_entry())) && idx as int == hs0.len()),
            decreases m - j,
        {
            proof {
                assert(values@.take(j + 1).drop_last() =~= values@.take(j as int));
                assert(values@.take(j + 1).last() == values@[j as int]);
            }
            let v = values[j];
            match pair.1.sketch.record(v) {
                Ok(()) => {
                    pair.1.sum = sat_add_u64(pair.1.sum, v);
                    pair.1.count = sat_add_u64(pair.1.count, 1);
                },
                Err(e) => {
                    self.histos.insert(idx, pair);
                    proof {
                        // The sketch never fails below 2048, so a fault
                        // names a value at or above it.
                        assert(values@[j as int] >= 2048);
                        lemma_restore(hs0, hs1, rest, kv, e0, idx as int, values@.take(j as int));
                        assert(self@.histos =~= rest.insert(
                            idx as int,
                            (kv, entry_after(e0, values@.take(j as int))),
                        ));
                        lemma_record_hist_unique(hs0, kv, values@.take(j as int));
                    }
                    return Err(e);
                },
            }
            j = j + 1;
        }
        self.histos.insert(idx, pair);
        proof {
            assert(values@.take(m as int) =~= values@);
            lemma_restore(hs0, hs1, rest, kv, e0, idx as int, values@);
            assert(self@.histos =~= rest.insert(idx as int, (kv, entry_after(e0, values@))));
            lemma_record_hist_unique(hs0, kv, values@);
        }
        Ok(())
    }
}

/// One `record_histogram` call keeps the keys of the entry sequence
/// unique.
proof fn lemma_record_hist_unique(hs: Seq<(KeyView, EntryView)>, k: KeyView, vs: Seq<u64>)
    requires
        keys_unique(hs),
    ensures
        keys_unique(spec_record_hist(hs, k, vs)),
{
    if has_key(hs, k) {
        let i = key_index(hs, k);
        let upd = hs.update(i, (k, entry_after(hs[i].1, vs)));
        assert(0 <= i < hs.len() && hs[i].0 == k);
        assert forall|x: int| 0 <= x < upd.len() implies (#[trigger] upd[x]).0 == hs[x].0 by {}
    }
}

impl Clone for PrometheusRecorder {
    /// A clone keeps the quantile configuration and starts from a blank
    /// slate: a fresh header timestamp, no text, no histogram entries.
    fn clone(&self) -> (res: Self)
        ensures
            res@.quantiles == self@.quantiles,
            res@.histos.len() == 0,
            exists|ts: u64| res@.output == header_text(ts),
            self.wf() ==> res.wf(),
    {
        let mut qs: Vec<Quantile> = Vec::new();
        let n = self.quantiles.len();
        let mut i: usize = 0;
        while i < n
            invariant
                i <= n,
                n == self.quantiles@.len(),
                qs@ =~= self.quantiles@.take(i as int),
            decreases n - i,
        {
            let q = &self.quantiles[i];
            qs.push(Quantile { permille: q.permille, label: q.label.clone() });
            proof {
                assert(qs@ =~= self.quantiles@.take(i + 1));
            }
            i = i + 1;
        }
        proof {
            assert(self.quantiles@.take(n as int) =~= self.quantiles@);
        }
        let header = get_prom_expo_header();
        PrometheusRecorder { quantiles: qs, histos: Vec::new(), output: header }
    }
}

/// The `quantile="..."` label rendered for a quantile.
pub open spec fn quantile_attr(q: Quantile) -> Seq<char> {
    "quantile=\""@ + quantile_label(q.permille as nat) + "\""@
}

/// One summary sample line: the labeled name with the quantile label
/// appended last, then the value at that quantile.
pub open spec fn quantile_line(k: KeyView, q: Quantile, values: Multiset<u64>) -> Seq<char> {
    labeled_name(sanitize(k.name), label_strs(k.label_seq()).push(quantile_attr(q))) + " "@
        + dec_digits(spec_value_at(values, q.permille as nat) as nat) + "\n"@
}

/// The summary sample lines, one per configured quantile, in order.
pub open spec fn quantile_lines(k: KeyView, qs: Seq<Quantile>, values: Multiset<u64>) -> Seq<char>
    decreases qs.len(),
{
    if qs.len() == 0 {
        Seq::empty()
    } else {
        quantile_lines(k, qs.drop_last(), values) + quantile_line(k, qs.last(), values)
    }
}

/// The whole text block one histogram entry renders at finalization: a
/// TYPE line, the quantile lines, then `_sum` and `_count` lines.
pub open spec fn hist_block(k: KeyView, e: EntryView, qs: Seq<Quantile>) -> Seq<char> {
    "\n# TYPE "@ + sanitize(k.name) + " summary\n"@ + quantile_lines(k, qs, e.values)
        + labeled_name(sanitize(k.name) + "_sum"@, label_strs(k.label_seq())) + " "@ + dec_digits(
        e.sum as nat,
    ) + "\n"@ + labeled_name(sanitize(k.name) + "_count"@, label_strs(k.label_seq())) + " "@
        + dec_digits(e.count as nat) + "\n"@
}

/// The text every histogram entry renders at finalization, in insertion
/// order.
pub open spec fn render_blocks(hs: Seq<(KeyView, EntryView)>, qs: Seq<Quantile>) -> Seq<char>
    decreases hs.len(),
{
    if hs.len() == 0 {
        Seq::empty()
    } else {
        render_blocks(hs.drop_last(), qs) + hist_block(hs.last().0, hs.last().1, qs)
    }
}

/// Whether every entry's observation count stays within the range the
/// sketch reports exactly.
pub open spec fn counts_exact(hs: Seq<(KeyView, EntryView)>) -> bool {
    forall|i: int| 0 <= i < hs.len() ==> (#[trigger] hs[i]).1.values.len() <= u64::MAX
}

/// Copies a vector of rendered labels.
fn clone_strings(v: &Vec<String>) -> (r: Vec<String>)
    ensures
        r.deep_view() == v.deep_view(),
{
    let mut out: Vec<String> = Vec::new();
    let n = v.len();
    let mut i: usize = 0;
    while i < n
        invariant
            i <= n,
            n == v@.len(),
            out.deep_view() =~= v.deep_view().take(i as int),
        decreases n - i,
    {
        let ghost prev = out.deep_view();
        let s = v[i].clone();
        out.push(s);
        proof {
            assert(out.deep_view() =~= prev.push(s@));
            assert(out.deep_view() =~= v.deep_view().take(i + 1));
        }
        i = i + 1;
    }
    proof {
        assert(v.deep_view().take(n as int) =~= v.deep_view());
    }
    out
}

impl PrometheusRecorder {
    /// Finalizes the renderer into one exposition-format string: the
    /// accumulated counter and gauge text, then one summary block per
    /// histogram entry in insertion order. Consuming the renderer makes a
    /// second finalization impossible by construction rather than a
    /// runtime error.
    #[verifier::rlimit(100)]
    pub fn into_string(self) -> (r: String)
        requires
            self.wf(),
        ensures
            counts_exact(self@.histos) ==> r@ == self@.output + render_blocks(
                self@.histos,
                self@.quantiles,
            ),
    {
        let ghost me = self@;
        let PrometheusRecorder { quantiles, histos, output } = self;
        let mut out = output;
        let n = histos.len();
        let mut i: usize = 0;
        while i < n
            invariant
                i <= n,
                n == histos@.len(),
                quantiles@ == me.quantiles,
                quantiles_wf(quantiles@),
                histos@.map_values(|p: (Key, HistEntry)| (p.0@, p.1@)) == me.histos,
                counts_exact(me.histos) ==> out@ == me.output + render_blocks(
                    me.histos.take(i as int),
                    me.quantiles,
                ),
            decreases n - i,
        {
            proof {
                reveal_strlit("\n# TYPE ");
                reveal_strlit(" summary\n");
                reveal_strlit(" ");
                reveal_strlit("\n");
                reveal_strlit("_sum");
                reveal_strlit("_count");
            }
            let pair = &histos[i];
            let ghost kv = pair.0@;
            let ghost ev = pair.1@;
            proof {
                assert(me.histos[i as int] == (kv, ev));
            }
            let ghost entered = out@;
            let parts = key_to_parts(&pair.0);
            out.append("\n# TYPE ");
            out.append(parts.0.as_str());
            out.append(" summary\n");
            let qn = quantiles.len();
            let mut qi: usize = 0;
            while qi < qn
                invariant
                    qi <= qn,
                    qn == quantiles@.len(),
                    quantiles_wf(quantiles@),
                    parts.0@ == sanitize(kv.name),
                    parts.1.deep_view() == label_strs(kv.label_seq()),
                    pair.1@ == ev,
                    counts_exact(me.histos) ==> ev.values.len() <= u64::MAX,
                    counts_exact(me.histos) ==> out@ == entered + "\n# TYPE "@ + sanitize(kv.name)
                        + " summary\n"@ + quantile_lines(kv, quantiles@.take(qi as int), ev.values),
                decreases qn - qi,
            {
                proof {
                    reveal_strlit("quantile=\"");
                    reveal_strlit("\"");
                    reveal_strlit(" ");
                    reveal_strlit("\n");
                }
                let q = &quantiles[qi];
                let mut attr = String::from_str("quantile=\"");
                attr.append(q.label.as_str());
                attr.append("\"");
                proof {
                    assert(attr@ == quantile_attr(quantiles@[qi as int]));
                }
                let mut ls = clone_strings(&parts.1);
                let ghost ls_before = ls.deep_view();
                ls.push(attr);
                proof {
                    assert(ls.deep_view() =~= ls_before.push(quantile_attr(
                        quantiles@[qi as int],
                    )));
                }
                let full = render_labeled_name(parts.0.as_str(), &ls);
                let value = pair.1.sketch.value_at_quantile(q.value_permille());
                out.append(full.as_str());
                out.append(" ");
                let vtext = u64_to_dec(value);
                out.append(vtext.as_str());
                out.append("\n");
                proof {
                    assert(quantiles@.take(qi + 1).drop_last() =~= quantiles@.take(qi as int));
                    assert(quantiles@.take(qi + 1).last() == quantiles@[qi as int]);
                    if counts_exact(me.histos) {
                        assert(value == spec_value_at(ev.values, quantiles@[qi as int].permille as nat));
                        assert(out@ =~= entered + "\n# TYPE "@ + sanitize(kv.name) + " summary\n"@
                            + quantile_lines(kv, quantiles@.take(qi + 1), ev.values));
                    }
                }
                qi = qi + 1;
            }
            let mut sum_name = parts.0.clone();
            sum_name.append("_sum");
            let full_sum = render_labeled_name(sum_name.as_str(), &parts.1);
            out.append(full_sum.as_str());
            out.append(" ");
            let stext = u64_to_dec(pair.1.sum);
            out.append(stext.as_str());
            out.append("\n");
            let mut count_name = parts.0.clone();
            count_name.append("_count");
            let full_count = render_labeled_name(count_name.as_str(), &parts.1);
            out.append(full_count.as_str());
            out.append(" ");
            let ctext = u64_to_dec(pair.1.count);
            out.append(ctext.as_str());
            out.append("\n");
            proof {
                assert(me.histos.take(i + 1).drop_last() =~= me.histos.take(i as int));
                assert(me.histos.take(i + 1).last() == me.histos[i as int]);
                assert(quantiles@.take(qn as int) =~= quantiles@);
                if counts_exact(me.histos) {
                    assert(out@ =~= me.output + render_blocks(me.histos.take(i + 1), me.quantiles));
                }
            }
            i = i + 1;
        }
        proof {
            assert(me.histos.take(n as int) =~= me.histos);
        }
        out
    }
}

/// Folding one batch after another into an entry is folding their
/// concatenation.
proof fn lemma_entry_after_concat(e: EntryView, a: Seq<u64>, b: Seq<u64>)
    ensures
        entry_after(entry_after(e, a), b) == entry_after(e, a + b),
    decreases b.len(),
{
    if b.len() == 0 {
        assert(a + b =~= a);
    } else {
        assert((a + b).drop_last() =~= a + b.drop_last());
        assert((a + b).last() == b.last());
        lemma_entry_after_concat(e, a, b.drop_last());
    }
}

/// Histogram merge equivalence: recording a batch of observations for a
/// key in one call leaves exactly the entries that recording its two
/// halves in successive calls leaves — the same running sum, the same
/// count, and the same sketch contents, so the same quantile answers.
pub proof fn lemma_record_histogram_merge(
    hs: Seq<(KeyView, EntryView)>,
    k: KeyView,
    vs1: Seq<u64>,
    vs2: Seq<u64>,
)
    requires
        keys_unique(hs),
    ensures
        spec_record_hist(spec_record_hist(hs, k, vs1), k, vs2) == spec_record_hist(hs, k, vs1 + vs2),
{
    if has_key(hs, k) {
        let i = key_index(hs, k);
        assert(0 <= i < hs.len() && hs[i].0 == k);
        let e1 = entry_after(hs[i].1, vs1);
        let hs1 = hs.update(i, (k, e1));
        assert(has_key(hs1, k)) by {
            assert(hs1[i].0 == k);
        }
        let i2 = key_index(hs1, k);
        assert(hs1[i2].0 == k);
        if i2 != i {
            assert(hs[i2].0 == k);
            assert(false);
        }
        lemma_entry_after_concat(hs[i].1, vs1, vs2);
        assert(hs1.update(i, (k, entry_after(e1, vs2))) =~= hs.update(
            i,
            (k, entry_after(hs[i].1, vs1 + vs2)),
        ));
    } else {
        let e1 = entry_after(empty_entry(), vs1);
        let hs1 = hs.push((k, e1));
        assert(has_key(hs1, k)) by {
            assert(hs1[hs.len() as int].0 == k);
        }
        let i2 = key_index(hs1, k);
        assert(hs1[i2].0 == k);
        if i2 != hs.len() {
            assert(hs[i2] == hs1[i2]);
            assert(false);
        }
        lemma_entry_after_concat(empty_entry(), vs1, vs2);
        assert(hs1.update(hs.len() as int, (k, entry_after(e1, vs2))) =~= hs.push(
            (k, entry_after(empty_entry(), vs1 + vs2)),
        ));
    }
}

/// Putting the updated entry back where it was taken from yields exactly
/// what one `record_histogram` call means on the entry sequence.
proof fn lemma_restore(
    hs0: Seq<(KeyView, EntryView)>,
    hs1: Seq<(KeyView, EntryView)>,
    rest: Seq<(KeyView, EntryView)>,
    kv: KeyView,
    e0: EntryView,
    idx: int,
    vs: Seq<u64>,
)
    requires
        keys_unique(hs0),
        0 <= idx < hs1.len(),
        hs1[idx].0 == kv,
        e0 == hs1[idx].1,
        rest == hs1.remove(idx),
        (has_key(hs0, kv) && hs1 == hs0 && key_index(hs0, kv) == idx) || (!has_key(hs0, kv) && hs1
            == hs0.push((kv, empty_entry())) && idx == hs0.len()),
    ensures
        rest.insert(idx, (kv, entry_after(e0, vs))) == spec_record_hist(hs0, kv, vs),
{
    let put = rest.insert(idx, (kv, entry_after(e0, vs)));
    assert(put =~= hs1.update(idx, (kv, entry_after(e0, vs))));
    if has_key(hs0, kv) && hs1 == hs0 && key_index(hs0, kv) == idx {
        assert(put =~= spec_record_hist(hs0, kv, vs));
    } else {
        assert(put =~= hs0.push((kv, entry_after(empty_entry(), vs))));
    }
}

} // verus!
