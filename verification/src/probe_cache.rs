//! The probe cache: what a probe told of a file, kept for as long as the
//! file's size and modification time stay what they were.

use crate::media_cache::Seconds;
use crate::ordering::{
    descending_order, is_descending_order, lemma_descending_order, sort_descending,
};
use crate::seqs::{
    distinct_by, lemma_filter_all, lemma_filter_distinct, lemma_filter_members,
    lemma_filter_push, lemma_filter_removes_one, lemma_push_distinct, picked,
};
use crate::text::{clone_opt, opt_view, same_text};
use vstd::prelude::*;

verus! {

/// What a probe told of one file.
#[derive(Debug, PartialEq, Eq)]
pub struct ProbeRecord {
    /// Absolute path; the record's identity in the cache.
    pub path: String,
    /// The file's size when it was probed.
    pub size_bytes: u64,
    /// The file's modification time when it was probed, in nanoseconds.
    pub mtime_ns: u64,
    /// When the file was probed, seconds since the Unix epoch.
    pub probed_at: u64,
    pub duration_sec: Option<Seconds>,
    pub video_codec: Option<String>,
    pub audio_codec: Option<String>,
    pub width: Option<u32>,
    pub height: Option<u32>,
    pub fps_num: Option<u32>,
    pub fps_den: Option<u32>,
    pub sample_rate: Option<u32>,
    pub channels: Option<u32>,
    /// Path of the file that holds the probe's whole output.
    pub json_path: Option<String>,
    /// Whether the slow, exhaustive probe has been made.
    pub deep_ready: bool,
}

/// The mathematical value of a [`ProbeRecord`].
pub struct ProbeRecordView {
    pub path: Seq<char>,
    pub size_bytes: u64,
    pub mtime_ns: u64,
    pub probed_at: u64,
    pub duration_sec: Option<Seconds>,
    pub video_codec: Option<Seq<char>>,
    pub audio_codec: Option<Seq<char>>,
    pub width: Option<u32>,
    pub height: Option<u32>,
    pub fps_num: Option<u32>,
    pub fps_den: Option<u32>,
    pub sample_rate: Option<u32>,
    pub channels: Option<u32>,
    pub json_path: Option<Seq<char>>,
    pub deep_ready: bool,
}

impl View for ProbeRecord {
    type V = ProbeRecordView;

    open spec fn view(&self) -> ProbeRecordView {
        ProbeRecordView {
            path: self.path@,
            size_bytes: self.size_bytes,
            mtime_ns: self.mtime_ns,
            probed_at: self.probed_at,
            duration_sec: self.duration_sec,
            video_codec: opt_view(self.video_codec),
            audio_codec: opt_view(self.audio_codec),
            width: self.width,
            height: self.height,
            fps_num: self.fps_num,
            fps_den: self.fps_den,
            sample_rate: self.sample_rate,
            channels: self.channels,
            json_path: opt_view(self.json_path),
            deep_ready: self.deep_ready,
        }
    }
}

impl Clone for ProbeRecord {
    fn clone(&self) -> (r: Self)
        ensures
            r@ == self@,
    {
        ProbeRecord {
            path: self.path.clone(),
            size_bytes: self.size_bytes,
            mtime_ns: self.mtime_ns,
            probed_at: self.probed_at,
            duration_sec: self.duration_sec,
            video_codec: clone_opt(&self.video_codec),
            audio_codec: clone_opt(&self.audio_codec),
            width: self.width,
            height: self.height,
            fps_num: self.fps_num,
            fps_den: self.fps_den,
            sample_rate: self.sample_rate,
            channels: self.channels,
            json_path: clone_opt(&self.json_path),
            deep_ready: self.deep_ready,
        }
    }
}

/// The values of the records of a list.
pub open spec fn record_views(records: Seq<ProbeRecord>) -> Seq<ProbeRecordView> {
    Seq::new(records.len(), |i: int| records[i]@)
}

/// The path of a record.
pub open spec fn record_path() -> spec_fn(ProbeRecordView) -> Seq<char> {
    |r: ProbeRecordView| r.path
}

/// Whether no two records have one path.
pub open spec fn distinct_records(rows: Seq<ProbeRecordView>) -> bool {
    distinct_by(rows, record_path())
}

/// Passes the records of every path but this one.
pub open spec fn other_record(path: Seq<char>) -> spec_fn(ProbeRecordView) -> bool {
    |r: ProbeRecordView| r.path != path
}

/// Passes the records made at `cutoff` or later.
pub open spec fn probed_since(cutoff: u64) -> spec_fn(ProbeRecordView) -> bool {
    |r: ProbeRecordView| r.probed_at >= cutoff
}

/// The cache after `r` was saved: a record of the same path is gone, and `r`
/// is the last record.
pub open spec fn saved(rows: Seq<ProbeRecordView>, r: ProbeRecordView) -> Seq<ProbeRecordView> {
    rows.filter(other_record(r.path)).push(r)
}

/// Whether the record at `i` is that of this path, size and modification
/// time.
pub open spec fn is_hit(
    rows: Seq<ProbeRecordView>,
    i: int,
    path: Seq<char>,
    size_bytes: u64,
    mtime_ns: u64,
) -> bool {
    &&& 0 <= i < rows.len()
    &&& rows[i].path == path
    &&& rows[i].size_bytes == size_bytes
    &&& rows[i].mtime_ns == mtime_ns
}

/// What a lookup gives: the record in which path, size and modification time
/// are all those asked for; else nothing.
pub open spec fn lookup(
    rows: Seq<ProbeRecordView>,
    path: Seq<char>,
    size_bytes: u64,
    mtime_ns: u64,
) -> Option<ProbeRecordView> {
    if exists|i: int| is_hit(rows, i, path, size_bytes, mtime_ns) {
        Some(rows[choose|i: int| is_hit(rows, i, path, size_bytes, mtime_ns)])
    } else {
        None
    }
}

/// When each record was made.
pub open spec fn probe_times(rows: Seq<ProbeRecordView>) -> Seq<u64> {
    Seq::new(rows.len(), |i: int| rows[i].probed_at)
}

/// The records from the one made last to the one made first; records made
/// at one time in the order in which the cache holds them.
pub open spec fn newest_first(rows: Seq<ProbeRecordView>) -> Seq<ProbeRecordView> {
    picked(rows, descending_order(probe_times(rows)))
}

/// Where the record of `path` stands.
fn position(rows: &Vec<ProbeRecord>, path: &str) -> (r: Option<usize>)
    ensures
        match r {
            Some(i) => i < rows.len() && rows@[i as int].path@ == path@,
            None => forall|i: int| 0 <= i < rows.len() ==> rows@[i].path@ != path@,
        },
{
    let mut i: usize = 0;
    while i < rows.len()
        invariant
            i <= rows.len(),
            forall|k: int| 0 <= k < i ==> rows@[k].path@ != path@,
        decreases rows.len() - i,
    {
        if same_text(rows[i].path.as_str(), path) {
            return Some(i);
        }
        i += 1;
    }
    None
}

/// The records of `rows` that were made at `cutoff` or later, in their order.
fn retain_probed(rows: Vec<ProbeRecord>, cutoff: u64) -> (kept: Vec<ProbeRecord>)
    ensures
        record_views(kept@) == record_views(rows@).filter(probed_since(cutoff)),
{
    let ghost all = record_views(rows@);
    let ghost keep = probed_since(cutoff);
    let mut kept: Vec<ProbeRecord> = Vec::new();
    proof {
        reveal(Seq::filter);
        assert(all.take(0).filter(keep) =~= record_views(kept@));
    }
    for r in it: rows
        invariant
            it.seq() == rows@,
            all == record_views(rows@),
            keep == probed_since(cutoff),
            record_views(kept@) == all.take(it.index() as int).filter(keep),
    {
        proof {
            let i = it.index() as int;
            assert(all.take(i + 1) =~= all.take(i).push(r@));
            lemma_filter_push(all.take(i), r@, keep);
        }
        let ghost before = record_views(kept@);
        if r.probed_at >= cutoff {
            kept.push(r);
            assert(record_views(kept@) =~= before.push(r@));
        }
    }
    assert(all.take(all.len() as int) =~= all);
    kept
}

/// The cache of probe results, one record for each path.
#[derive(Debug)]
pub struct ProbeCache {
    rows: Vec<ProbeRecord>,
}

impl View for ProbeCache {
    type V = Seq<ProbeRecordView>;

    closed spec fn view(&self) -> Seq<ProbeRecordView> {
        record_views(self.rows@)
    }
}

impl ProbeCache {
    #[verifier::type_invariant]
    spec fn well_formed(self) -> bool {
        distinct_records(self@)
    }

    /// An empty cache.
    pub fn new() -> (r: Self)
        ensures
            r@ == Seq::<ProbeRecordView>::empty(),
    {
        let r = ProbeCache { rows: Vec::new() };
        assert(r@ =~= Seq::<ProbeRecordView>::empty());
        r
    }

    /// Number of records.
    pub fn len(&self) -> (r: usize)
        ensures
            r == self@.len(),
            distinct_records(self@),
    {
        proof {
            use_type_invariant(self);
        }
        self.rows.len()
    }

    /// The record of the file at `path`, where the file still has the size
    /// and the modification time that the record was made with. A file
    /// without a record, or with another size or modification time, gives
    /// `None`.
    pub fn check_probe_cache(&self, path: &str, size_bytes: u64, mtime_ns: u64) -> (r: Option<
        ProbeRecord,
    >)
        ensures
            match r {
                Some(rec) => lookup(self@, path@, size_bytes, mtime_ns) == Some(rec@),
                None => lookup(self@, path@, size_bytes, mtime_ns) is None,
            },
    {
        proof {
            use_type_invariant(self);
        }
        match position(&self.rows, path) {
            Some(i) => {
                assert forall|k: int| is_hit(self@, k, path@, size_bytes, mtime_ns) implies k
                    == i by {
                    if k < i {
                        assert(record_path()(self@[k]) != record_path()(self@[i as int]));
                    } else if k > i {
                        assert(record_path()(self@[i as int]) != record_path()(self@[k]));
                    }
                }
                if self.rows[i].size_bytes == size_bytes && self.rows[i].mtime_ns == mtime_ns {
                    assert(is_hit(self@, i as int, path@, size_bytes, mtime_ns));
                    Some(self.rows[i].clone())
                } else {
                    None
                }
            },
            None => None,
        }
    }

    /// Saves a record: it replaces the record of its path, if there is one.
    pub fn save_probe_cache(&mut self, record: &ProbeRecord)
        ensures
            final(self)@ == saved(old(self)@, record@),
            distinct_records(final(self)@),
    {
        proof {
            use_type_invariant(&*self);
        }
        let ghost before = self@;
        let ghost keep = other_record(record@.path);
        let mut rows: Vec<ProbeRecord> = Vec::new();
        std::mem::swap(&mut rows, &mut self.rows);
        match position(&rows, record.path.as_str()) {
            Some(i) => {
                proof {
                    lemma_filter_removes_one(before, record_path(), keep, i as int);
                }
                rows.remove(i);
                assert(record_views(rows@) =~= before.remove(i as int));
            },
            None => {
                proof {
                    lemma_filter_all(before, keep);
                }
            },
        }
        proof {
            lemma_filter_distinct(before, record_path(), keep);
            lemma_filter_members(before, keep);
            lemma_push_distinct(before.filter(keep), record_path(), record@);
        }
        rows.push(record.clone());
        assert(record_views(rows@) =~= before.filter(keep).push(record@));
        self.rows = rows;
    }

    /// All records, from the one made last to the one made first.
    pub fn get_all_probe_cache(&self) -> (r: Vec<ProbeRecord>)
        ensures
            record_views(r@) == newest_first(self@),
    {
        let mut keys: Vec<u64> = Vec::new();
        let mut i: usize = 0;
        while i < self.rows.len()
            invariant
                i <= self.rows.len(),
                keys@ == probe_times(self@).take(i as int),
            decreases self.rows.len() - i,
        {
            keys.push(self.rows[i].probed_at);
            assert(keys@ =~= probe_times(self@).take(i + 1));
            i += 1;
        }
        assert(keys@ =~= probe_times(self@));
        let order = sort_descending(&keys);
        let mut out: Vec<ProbeRecord> = Vec::new();
        let mut k: usize = 0;
        while k < order.len()
            invariant
                k <= order.len() == self.rows.len(),
                is_descending_order(probe_times(self@), self@.len(), order@),
                order@ == descending_order(probe_times(self@)),
                record_views(out@) == newest_first(self@).take(k as int),
            decreases order.len() - k,
        {
            let ghost before = record_views(out@);
            let at: usize = order[k];
            out.push(self.rows[at].clone());
            assert(record_views(out@) =~= before.push(self@[at as int]));
            assert(record_views(out@) =~= newest_first(self@).take(k + 1));
            k += 1;
        }
        assert(newest_first(self@).take(k as int) =~= newest_first(self@));
        out
    }

    /// Removes the records that were made before `cutoff_timestamp`.
    pub fn cleanup_stale_entries(&mut self, cutoff_timestamp: u64)
        ensures
            final(self)@ == old(self)@.filter(probed_since(cutoff_timestamp)),
            distinct_records(final(self)@),
    {
        proof {
            use_type_invariant(&*self);
            lemma_filter_distinct(self@, record_path(), probed_since(cutoff_timestamp));
        }
        let mut rows: Vec<ProbeRecord> = Vec::new();
        std::mem::swap(&mut rows, &mut self.rows);
        self.rows = retain_probed(rows, cutoff_timestamp);
    }
}

/// A record that was saved is found under its own path, size and
/// modification time, and under no other size or modification time of that
/// path: a file that has changed in either has no record.
pub proof fn lemma_lookup_needs_identity(
    rows: Seq<ProbeRecordView>,
    r: ProbeRecordView,
    size_bytes: u64,
    mtime_ns: u64,
)
    requires
        distinct_records(rows),
    ensures
        lookup(saved(rows, r), r.path, r.size_bytes, r.mtime_ns) == Some(r),
        size_bytes != r.size_bytes || mtime_ns != r.mtime_ns ==> lookup(
            saved(rows, r),
            r.path,
            size_bytes,
            mtime_ns,
        ) is None,
{
    let keep = other_record(r.path);
    let kept = rows.filter(keep);
    let after = saved(rows, r);
    lemma_filter_members(rows, keep);
    let last = after.len() - 1;
    assert(after[last] == r);
    assert forall|k: int, s: u64, m: u64| is_hit(after, k, r.path, s, m) implies k == last by {
        if k < last {
            assert(after[k] == kept[k]);
        }
    }
    assert(is_hit(after, last, r.path, r.size_bytes, r.mtime_ns));
}

/// A lookup finds only what the cache holds: a record of the path, the size
/// and the modification time asked for.
pub proof fn lemma_lookup_is_exact(
    rows: Seq<ProbeRecordView>,
    path: Seq<char>,
    size_bytes: u64,
    mtime_ns: u64,
)
    ensures
        match lookup(rows, path, size_bytes, mtime_ns) {
            Some(r) => rows.contains(r) && r.path == path && r.size_bytes == size_bytes
                && r.mtime_ns == mtime_ns,
            None => forall|i: int|
                0 <= i < rows.len() ==> !((#[trigger] rows[i]).path == path && rows[i].size_bytes
                    == size_bytes && rows[i].mtime_ns == mtime_ns),
        },
{
    if lookup(rows, path, size_bytes, mtime_ns) is None {
        assert forall|i: int| 0 <= i < rows.len() implies !((#[trigger] rows[i]).path == path
            && rows[i].size_bytes == size_bytes && rows[i].mtime_ns == mtime_ns) by {
            if rows[i].path == path && rows[i].size_bytes == size_bytes && rows[i].mtime_ns
                == mtime_ns {
                assert(is_hit(rows, i, path, size_bytes, mtime_ns));
            }
        }
    }
}

/// The listing of all records holds each record once, and none before one
/// that was made later.
pub proof fn lemma_newest_first(rows: Seq<ProbeRecordView>)
    requires
        rows.len() <= usize::MAX,
    ensures
        newest_first(rows).len() == rows.len(),
        forall|i: int| 0 <= i < rows.len() ==> newest_first(rows).contains(#[trigger] rows[i]),
        forall|i: int, j: int|
            0 <= i < j < rows.len() ==> (#[trigger] newest_first(rows)[i]).probed_at >= (
            #[trigger] newest_first(rows)[j]).probed_at,
{
    let keys = probe_times(rows);
    let order = descending_order(keys);
    let all = newest_first(rows);
    lemma_descending_order(keys);
    assert forall|i: int| 0 <= i < rows.len() implies all.contains(#[trigger] rows[i]) by {
        assert(order.contains(i as usize));
        let k = choose|k: int| 0 <= k < order.len() && order[k] == i as usize;
        assert(all[k] == rows[i]);
    }
    assert forall|i: int, j: int| 0 <= i < j < rows.len() implies (#[trigger] all[i]).probed_at >= (
    #[trigger] all[j]).probed_at by {
        assert(keys[order[i] as int] >= keys[order[j] as int]);
    }
}

} // verus!
