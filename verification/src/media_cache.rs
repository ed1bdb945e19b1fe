//! The catalog: one row per media file, identified by its path.

use crate::ordering::{
    descending_order, is_descending_order, lemma_descending_order, sort_descending,
};
use crate::seqs::{
    distinct_by, lemma_filter_all, lemma_filter_distinct, lemma_filter_members,
    lemma_filter_push, lemma_filter_removes_one, lemma_push_distinct, page, page_bounds, picked,
};
use crate::text::{clone_opt, opt_view, same_text, texts};
use std::time::{Duration, SystemTime, SystemTimeError};
use vstd::prelude::*;

verus! {

/// A length of time in seconds: an IEEE-754 double, held by its bit pattern.
/// The library carries such a value and never computes with it.
#[derive(Debug, Clone, Copy, PartialEq, Eq, Structural)]
pub struct Seconds {
    pub bits: u64,
}

/// One media file as the catalog knows it.
#[derive(Debug, PartialEq, Eq)]
pub struct MediaFile {
    /// Absolute path; the row's identity.
    pub path: String,
    /// Modification time, seconds since the Unix epoch.
    pub mtime: u64,
    /// Size in bytes.
    pub size: u64,
    /// Extension in lower case, without the dot.
    pub ext: String,
    pub duration: Option<Seconds>,
    pub width: Option<u32>,
    pub height: Option<u32>,
    pub codec: Option<String>,
    /// Path of the thumbnail made for this file, once there is one.
    pub thumb: Option<String>,
    /// When a scan last saw the file, seconds since the Unix epoch.
    pub last_seen: u64,
}

/// The mathematical value of a [`MediaFile`].
pub struct MediaFileView {
    pub path: Seq<char>,
    pub mtime: u64,
    pub size: u64,
    pub ext: Seq<char>,
    pub duration: Option<Seconds>,
    pub width: Option<u32>,
    pub height: Option<u32>,
    pub codec: Option<Seq<char>>,
    pub thumb: Option<Seq<char>>,
    pub last_seen: u64,
}

impl View for MediaFile {
    type V = MediaFileView;

    open spec fn view(&self) -> MediaFileView {
        MediaFileView {
            path: self.path@,
            mtime: self.mtime,
            size: self.size,
            ext: self.ext@,
            duration: self.duration,
            width: self.width,
            height: self.height,
            codec: opt_view(self.codec),
            thumb: opt_view(self.thumb),
            last_seen: self.last_seen,
        }
    }
}

impl Clone for MediaFile {
    fn clone(&self) -> (r: Self)
        ensures
            r@ == self@,
    {
        MediaFile {
            path: self.path.clone(),
            mtime: self.mtime,
            size: self.size,
            ext: self.ext.clone(),
            duration: self.duration,
            width: self.width,
            height: self.height,
            codec: clone_opt(&self.codec),
            thumb: clone_opt(&self.thumb),
            last_seen: self.last_seen,
        }
    }
}

/// The clock type of the standard library, opaque to the verifier.
#[verifier::external_type_specification]
#[verifier::external_body]
pub struct ExSystemTime(SystemTime);

/// The error of a time difference that would be negative.
#[verifier::external_type_specification]
#[verifier::external_body]
pub struct ExSystemTimeError(SystemTimeError);

/// `SystemTime::now` reads the machine's clock: nothing is known of the result.
pub assume_specification[ SystemTime::now ]() -> SystemTime;

/// `SystemTime::duration_since`, taken from the Unix epoch: the time elapsed
/// since then, or an error when `t` lies before it. Nothing more is claimed.
#[verifier::external_body]
fn since_epoch(t: &SystemTime) -> Result<Duration, SystemTimeError> {
    t.duration_since(SystemTime::UNIX_EPOCH)
}

/// `Duration::as_secs` gives the whole seconds of a duration.
pub assume_specification[ Duration::as_secs ](d: &Duration) -> u64;

/// Seconds since the Unix epoch by the machine's clock; 0 if the clock is set
/// before the epoch.
pub fn current_timestamp() -> u64 {
    let now = SystemTime::now();
    match since_epoch(&now) {
        Ok(d) => d.as_secs(),
        Err(_) => 0,
    }
}

/// The values of the files of a list.
pub open spec fn file_views(files: Seq<MediaFile>) -> Seq<MediaFileView> {
    Seq::new(files.len(), |i: int| files[i]@)
}

/// The path of a row.
pub open spec fn path_of() -> spec_fn(MediaFileView) -> Seq<char> {
    |f: MediaFileView| f.path
}

/// Whether no two rows have one path.
pub open spec fn distinct_paths(rows: Seq<MediaFileView>) -> bool {
    distinct_by(rows, path_of())
}

/// Passes the rows of every path but this one.
pub open spec fn other_path(path: Seq<char>) -> spec_fn(MediaFileView) -> bool {
    |f: MediaFileView| f.path != path
}

/// Passes the rows seen at `cutoff` or later.
pub open spec fn seen_since(cutoff: u64) -> spec_fn(MediaFileView) -> bool {
    |f: MediaFileView| f.last_seen >= cutoff
}

/// Passes the rows whose extension is one of `exts`.
pub open spec fn has_ext_in(exts: Seq<Seq<char>>) -> spec_fn(MediaFileView) -> bool {
    |f: MediaFileView| exts.contains(f.ext)
}

/// The catalog after `f` was put in: a row of the same path is gone, and `f`
/// is the last row.
pub open spec fn upserted(rows: Seq<MediaFileView>, f: MediaFileView) -> Seq<MediaFileView> {
    rows.filter(other_path(f.path)).push(f)
}

/// The catalog after each of `files` was put in, in order.
pub open spec fn upserted_all(rows: Seq<MediaFileView>, files: Seq<MediaFileView>) -> Seq<
    MediaFileView,
>
    decreases files.len(),
{
    if files.len() == 0 {
        rows
    } else {
        upserted(upserted_all(rows, files.drop_last()), files.last())
    }
}

/// The catalog after the row of `path`, if there is one, got these derived
/// fields.
pub open spec fn derived_updated(
    rows: Seq<MediaFileView>,
    path: Seq<char>,
    duration: Option<Seconds>,
    width: Option<u32>,
    height: Option<u32>,
    codec: Option<Seq<char>>,
) -> Seq<MediaFileView> {
    Seq::new(
        rows.len(),
        |i: int|
            if rows[i].path == path {
                MediaFileView { duration, width, height, codec, ..rows[i] }
            } else {
                rows[i]
            },
    )
}

/// The catalog after the row of `path`, if there is one, got this thumbnail.
pub open spec fn thumb_recorded(rows: Seq<MediaFileView>, path: Seq<char>, thumb: Seq<char>) -> Seq<
    MediaFileView,
> {
    Seq::new(
        rows.len(),
        |i: int|
            if rows[i].path == path {
                MediaFileView { thumb: Some(thumb), ..rows[i] }
            } else {
                rows[i]
            },
    )
}

/// When each row was last seen.
pub open spec fn recency_keys(rows: Seq<MediaFileView>) -> Seq<u64> {
    Seq::new(rows.len(), |i: int| rows[i].last_seen)
}

/// The rows from the one seen last to the one seen first; rows seen at one
/// time in the order in which the catalog holds them.
pub open spec fn by_recency(rows: Seq<MediaFileView>) -> Seq<MediaFileView> {
    picked(rows, descending_order(recency_keys(rows)))
}

/// What a query gives: the rows with one of the extensions, those seen last
/// first, and of them the page asked for.
pub open spec fn listing(
    rows: Seq<MediaFileView>,
    exts: Seq<Seq<char>>,
    limit: Option<u32>,
    offset: Option<u32>,
) -> Seq<MediaFileView> {
    page(by_recency(rows.filter(has_ext_in(exts))), limit, offset)
}

/// The row of `path`, if there is one.
pub open spec fn row_of(rows: Seq<MediaFileView>, path: Seq<char>) -> Option<MediaFileView> {
    if exists|i: int| 0 <= i < rows.len() && rows[i].path == path {
        Some(rows[choose|i: int| 0 <= i < rows.len() && rows[i].path == path])
    } else {
        None
    }
}

/// Where the row of `path` stands.
fn position(rows: &Vec<MediaFile>, path: &str) -> (r: Option<usize>)
    ensures
        match r {
            Some(i) => i < rows.len() && rows@[i as int].path@ == path@,
            None => forall|i: int| 0 <= i < rows.len() ==> rows@[i].path@ != path@,
        },
{
    let mut i: usize = 0;
    while i < rows.len()
        invariant
            i <= rows.len(),
            forall|k: int| 0 <= k < i ==> rows@[k].path@ != path@,
        decreases rows.len() - i,
    {
        if same_text(rows[i].path.as_str(), path) {
            return Some(i);
        }
        i += 1;
    }
    None
}

/// Puts `file` into `rows`.
fn upsert_one(rows: &mut Vec<MediaFile>, file: MediaFile)
    requires
        distinct_paths(file_views(old(rows)@)),
    ensures
        file_views(final(rows)@) == upserted(file_views(old(rows)@), file@),
        distinct_paths(file_views(final(rows)@)),
{
    let ghost before = file_views(rows@);
    let ghost keep = other_path(file@.path);
    match position(rows, file.path.as_str()) {
        Some(i) => {
            proof {
                lemma_filter_removes_one(before, path_of(), keep, i as int);
            }
            rows.remove(i);
            assert(file_views(rows@) =~= before.remove(i as int));
        },
        None => {
            proof {
                lemma_filter_all(before, keep);
            }
        },
    }
    proof {
        lemma_filter_distinct(before, path_of(), keep);
        lemma_filter_members(before, keep);
        lemma_push_distinct(before.filter(keep), path_of(), file@);
    }
    rows.push(file);
    assert(file_views(rows@) =~= before.filter(keep).push(file@));
}

/// The catalog of the media files that scans have found.
#[derive(Debug)]
pub struct MediaCache {
    rows: Vec<MediaFile>,
}

impl View for MediaCache {
    type V = Seq<MediaFileView>;

    closed spec fn view(&self) -> Seq<MediaFileView> {
        file_views(self.rows@)
    }
}

impl MediaCache {
    #[verifier::type_invariant]
    spec fn well_formed(self) -> bool {
        distinct_paths(self@)
    }

    /// An empty catalog.
    pub fn new() -> (r: Self)
        ensures
            r@ == Seq::<MediaFileView>::empty(),
    {
        let r = MediaCache { rows: Vec::new() };
        assert(r@ =~= Seq::<MediaFileView>::empty());
        r
    }

    /// Number of rows.
    pub fn len(&self) -> (r: usize)
        ensures
            r == self@.len(),
            distinct_paths(self@),
    {
        proof {
            use_type_invariant(self);
        }
        self.rows.len()
    }

    /// All rows, in the order in which the catalog holds them.
    pub fn rows(&self) -> (r: Vec<MediaFile>)
        ensures
            file_views(r@) == self@,
    {
        let mut out: Vec<MediaFile> = Vec::new();
        let mut i: usize = 0;
        while i < self.rows.len()
            invariant
                i <= self.rows.len(),
                file_views(out@) == self@.take(i as int),
            decreases self.rows.len() - i,
        {
            let ghost before = file_views(out@);
            out.push(self.rows[i].clone());
            assert(self@[i as int] == self.rows@[i as int]@);
            assert(file_views(out@) =~= before.push(self@[i as int]));
            assert(file_views(out@) =~= self@.take(i + 1));
            i += 1;
        }
        assert(self@.take(i as int) =~= self@);
        out
    }

    /// The row of `path`, if there is one.
    pub fn get(&self, path: &str) -> (r: Option<MediaFile>)
        ensures
            match r {
                Some(f) => row_of(self@, path@) == Some(f@),
                None => row_of(self@, path@) is None,
            },
    {
        proof {
            use_type_invariant(self);
        }
        match position(&self.rows, path) {
            Some(i) => {
                proof {
                    let k = choose|k: int| 0 <= k < self@.len() && self@[k].path == path@;
                    if k < i {
                        assert(path_of()(self@[k]) != path_of()(self@[i as int]));
                    } else if k > i {
                        assert(path_of()(self@[i as int]) != path_of()(self@[k]));
                    }
                }
                Some(self.rows[i].clone())
            },
            None => None,
        }
    }

    /// Puts each of `files` into the catalog, in order: a file whose path
    /// the catalog holds replaces that row, with all its fields.
    pub fn upsert_media_batch(&mut self, files: &[MediaFile])
        ensures
            final(self)@ == upserted_all(old(self)@, file_views(files@)),
            distinct_paths(final(self)@),
    {
        proof {
            use_type_invariant(&*self);
        }
        let ghost before = self@;
        let ghost batch = file_views(files@);
        let mut rows: Vec<MediaFile> = Vec::new();
        std::mem::swap(&mut rows, &mut self.rows);
        let mut k: usize = 0;
        while k < files.len()
            invariant
                k <= files.len(),
                batch == file_views(files@),
                file_views(rows@) == upserted_all(before, batch.take(k as int)),
                distinct_paths(file_views(rows@)),
            decreases files.len() - k,
        {
            proof {
                assert(batch.take(k + 1).drop_last() =~= batch.take(k as int));
                assert(batch.take(k + 1).last() == files@[k as int]@);
            }
            upsert_one(&mut rows, files[k].clone());
            k += 1;
        }
        assert(batch.take(k as int) =~= batch);
        self.rows = rows;
    }

    /// Sets the derived fields of the row of `path` to the values given,
    /// missing ones included. Without such a row nothing changes.
    pub fn update_heavy_fields(
        &mut self,
        path: &str,
        duration: Option<Seconds>,
        width: Option<u32>,
        height: Option<u32>,
        codec: Option<String>,
    )
        ensures
            final(self)@ == derived_updated(
                old(self)@,
                path@,
                duration,
                width,
                height,
                opt_view(codec),
            ),
            distinct_paths(final(self)@),
    {
        proof {
            use_type_invariant(&*self);
        }
        let ghost before = self@;
        let ghost after = derived_updated(before, path@, duration, width, height, opt_view(codec));
        let mut rows: Vec<MediaFile> = Vec::new();
        std::mem::swap(&mut rows, &mut self.rows);
        assert forall|i: int, j: int| 0 <= i < j < after.len() implies path_of()(
            #[trigger] after[i],
        ) != path_of()(#[trigger] after[j]) by {
            assert(path_of()(before[i]) != path_of()(before[j]));
        }
        match position(&rows, path) {
            Some(i) => {
                assert forall|k: int| 0 <= k < before.len() && k != i implies before[k].path
                    != path@ by {
                    if k < i {
                        assert(path_of()(before[k]) != path_of()(before[i as int]));
                    } else {
                        assert(path_of()(before[i as int]) != path_of()(before[k]));
                    }
                }
                let old_row = &rows[i];
                let row = MediaFile {
                    path: old_row.path.clone(),
                    mtime: old_row.mtime,
                    size: old_row.size,
                    ext: old_row.ext.clone(),
                    duration,
                    width,
                    height,
                    codec,
                    thumb: clone_opt(&old_row.thumb),
                    last_seen: old_row.last_seen,
                };
                rows.set(i, row);
                assert(file_views(rows@) =~= after);
            },
            None => {
                assert(before =~= after);
            },
        }
        self.rows = rows;
    }

    /// Notes the thumbnail of the row of `path`. Without such a row nothing
    /// changes.
    pub fn record_thumbnail(&mut self, path: &str, thumb: String)
        ensures
            final(self)@ == thumb_recorded(old(self)@, path@, thumb@),
            distinct_paths(final(self)@),
    {
        proof {
            use_type_invariant(&*self);
        }
        let ghost before = self@;
        let ghost after = thumb_recorded(before, path@, thumb@);
        let mut rows: Vec<MediaFile> = Vec::new();
        std::mem::swap(&mut rows, &mut self.rows);
        assert forall|i: int, j: int| 0 <= i < j < after.len() implies path_of()(
            #[trigger] after[i],
        ) != path_of()(#[trigger] after[j]) by {
            assert(path_of()(before[i]) != path_of()(before[j]));
        }
        match position(&rows, path) {
            Some(i) => {
                assert forall|k: int| 0 <= k < before.len() && k != i implies before[k].path
                    != path@ by {
                    if k < i {
                        assert(path_of()(before[k]) != path_of()(before[i as int]));
                    } else {
                        assert(path_of()(before[i as int]) != path_of()(before[k]));
                    }
                }
                let mut row = rows[i].clone();
                row.thumb = Some(thumb);
                rows.set(i, row);
                assert(file_views(rows@) =~= after);
            },
            None => {
                assert(before =~= after);
            },
        }
        self.rows = rows;
    }
}

/// Whether `ext` is one of `extensions`, letter for letter.
fn ext_listed(extensions: &[String], ext: &str) -> (r: bool)
    ensures
        r == texts(extensions@).contains(ext@),
{
    let mut i: usize = 0;
    while i < extensions.len()
        invariant
            i <= extensions.len(),
            forall|k: int| 0 <= k < i ==> texts(extensions@)[k] != ext@,
        decreases extensions.len() - i,
    {
        if same_text(extensions[i].as_str(), ext) {
            assert(texts(extensions@)[i as int] == ext@);
            return true;
        }
        i += 1;
    }
    false
}

/// The rows of `rows` that were seen at `cutoff` or later, in their order.
fn retain_seen(rows: Vec<MediaFile>, cutoff: u64) -> (kept: Vec<MediaFile>)
    ensures
        file_views(kept@) == file_views(rows@).filter(seen_since(cutoff)),
{
    let ghost all = file_views(rows@);
    let ghost keep = seen_since(cutoff);
    let mut kept: Vec<MediaFile> = Vec::new();
    proof {
        reveal(Seq::filter);
        assert(all.take(0).filter(keep) =~= file_views(kept@));
    }
    for f in it: rows
        invariant
            it.seq() == rows@,
            all == file_views(rows@),
            keep == seen_since(cutoff),
            file_views(kept@) == all.take(it.index() as int).filter(keep),
    {
        proof {
            let i = it.index() as int;
            assert(all.take(i + 1) =~= all.take(i).push(f@));
            lemma_filter_push(all.take(i), f@, keep);
        }
        let ghost before = file_views(kept@);
        if f.last_seen >= cutoff {
            kept.push(f);
            assert(file_views(kept@) =~= before.push(f@));
        }
    }
    assert(all.take(all.len() as int) =~= all);
    kept
}

impl MediaCache {
    /// The rows whose extension is one of `extensions`, from the one seen
    /// last to the one seen first. With a limit, at most so many rows, from
    /// the row at `offset` on; without a limit all of them, whatever the
    /// offset.
    pub fn get_media_by_ext(
        &self,
        extensions: &[String],
        limit: Option<u32>,
        offset: Option<u32>,
    ) -> (r: Vec<MediaFile>)
        ensures
            file_views(r@) == listing(self@, texts(extensions@), limit, offset),
    {
        let ghost pred = has_ext_in(texts(extensions@));
        let mut hits: Vec<usize> = Vec::new();
        let mut keys: Vec<u64> = Vec::new();
        let mut i: usize = 0;
        proof {
            reveal(Seq::filter);
            assert(picked(self@, hits@) =~= self@.take(0).filter(pred));
            assert(keys@ =~= recency_keys(picked(self@, hits@)));
        }
        while i < self.rows.len()
            invariant
                i <= self.rows.len(),
                pred == has_ext_in(texts(extensions@)),
                forall|k: int| 0 <= k < hits.len() ==> (#[trigger] hits@[k]) < i,
                picked(self@, hits@) == self@.take(i as int).filter(pred),
                keys@ == recency_keys(picked(self@, hits@)),
            decreases self.rows.len() - i,
        {
            let ghost found = picked(self@, hits@);
            proof {
                assert(self@.take(i + 1) =~= self@.take(i as int).push(self@[i as int]));
                lemma_filter_push(self@.take(i as int), self@[i as int], pred);
            }
            if ext_listed(extensions, self.rows[i].ext.as_str()) {
                hits.push(i);
                keys.push(self.rows[i].last_seen);
                assert(picked(self@, hits@) =~= found.push(self@[i as int]));
                assert(keys@ =~= recency_keys(picked(self@, hits@)));
            }
            i += 1;
        }
        assert(self@.take(i as int) =~= self@);
        let ghost found = picked(self@, hits@);
        let order = sort_descending(&keys);
        let bounds = page_bounds(order.len(), limit, offset);
        let start: usize = bounds.0;
        let end: usize = bounds.1;
        let mut out: Vec<MediaFile> = Vec::new();
        let mut k: usize = start;
        assert(file_views(out@) =~= by_recency(found).subrange(start as int, k as int));
        while k < end
            invariant
                start <= k <= end <= order.len() == hits.len(),
                found == picked(self@, hits@),
                keys@ == recency_keys(found),
                order@ == descending_order(keys@),
                is_descending_order(keys@, keys@.len(), order@),
                forall|j: int| 0 <= j < hits.len() ==> (#[trigger] hits@[j]) < self.rows.len(),
                file_views(out@) == by_recency(found).subrange(start as int, k as int),
            decreases end - k,
        {
            let ghost before = file_views(out@);
            let at: usize = order[k];
            assert(at < hits.len());
            let row: usize = hits[at];
            out.push(self.rows[row].clone());
            assert(by_recency(found)[k as int] == self@[row as int]);
            assert(file_views(out@) =~= before.push(self@[row as int]));
            k += 1;
            assert(file_views(out@) =~= by_recency(found).subrange(start as int, k as int));
        }
        out
    }

    /// Removes the rows that were last seen before `cutoff_timestamp`.
    pub fn cleanup_old_entries(&mut self, cutoff_timestamp: u64)
        ensures
            final(self)@ == old(self)@.filter(seen_since(cutoff_timestamp)),
            distinct_paths(final(self)@),
    {
        proof {
            use_type_invariant(&*self);
            lemma_filter_distinct(self@, path_of(), seen_since(cutoff_timestamp));
        }
        let mut rows: Vec<MediaFile> = Vec::new();
        std::mem::swap(&mut rows, &mut self.rows);
        self.rows = retain_seen(rows, cutoff_timestamp);
    }
}

/// Putting a file in leaves one row of its path, the file itself as the
/// last row, and the rows of the other paths as they were, in their order.
pub proof fn lemma_upsert_one_row(rows: Seq<MediaFileView>, f: MediaFileView)
    requires
        distinct_paths(rows),
    ensures
        distinct_paths(upserted(rows, f)),
        upserted(rows, f).last() == f,
        row_of(upserted(rows, f), f.path) == Some(f),
        forall|i: int|
            0 <= i < upserted(rows, f).len() - 1 ==> (#[trigger] upserted(rows, f)[i]).path
                != f.path,
        upserted(rows, f).drop_last() == rows.filter(other_path(f.path)),
{
    let keep = other_path(f.path);
    let kept = rows.filter(keep);
    let after = upserted(rows, f);
    lemma_filter_distinct(rows, path_of(), keep);
    lemma_filter_members(rows, keep);
    lemma_push_distinct(kept, path_of(), f);
    assert(after.drop_last() =~= kept);
    assert forall|i: int| 0 <= i < after.len() - 1 implies (#[trigger] after[i]).path
        != f.path by {
        assert(after[i] == kept[i]);
    }
    assert(after[after.len() - 1].path == f.path);
    let k = choose|k: int| 0 <= k < after.len() && after[k].path == f.path;
    assert(k == after.len() - 1);
}

/// Putting in a file of a path that was put in just before leaves what
/// putting in the second file alone leaves: the later values win, and to put
/// one file in twice is to put it in once.
pub proof fn lemma_upsert_twice(rows: Seq<MediaFileView>, first: MediaFileView, second: MediaFileView)
    requires
        first.path == second.path,
    ensures
        upserted(upserted(rows, first), second) == upserted(rows, second),
        upserted(upserted(rows, first), first) == upserted(rows, first),
{
    let keep = other_path(first.path);
    let kept = rows.filter(keep);
    lemma_filter_members(rows, keep);
    lemma_filter_push(kept, first, keep);
    lemma_filter_all(kept, keep);
}

/// After a batch was put in, no two rows have one path; the catalog holds
/// each file of the batch that no later file of the batch replaces, and each
/// earlier row whose path the batch does not name.
pub proof fn lemma_upsert_batch(rows: Seq<MediaFileView>, files: Seq<MediaFileView>)
    requires
        distinct_paths(rows),
    ensures
        distinct_paths(upserted_all(rows, files)),
        forall|i: int|
            0 <= i < files.len() && (forall|j: int|
                i < j < files.len() ==> (#[trigger] files[j]).path != files[i].path)
                ==> upserted_all(rows, files).contains(#[trigger] files[i]),
        forall|k: int|
            0 <= k < rows.len() && (forall|j: int|
                0 <= j < files.len() ==> (#[trigger] files[j]).path != rows[k].path)
                ==> upserted_all(rows, files).contains(#[trigger] rows[k]),
    decreases files.len(),
{
    if files.len() > 0 {
        let earlier = files.drop_last();
        let f = files.last();
        let before = upserted_all(rows, earlier);
        let after = upserted_all(rows, files);
        let keep = other_path(f.path);
        lemma_upsert_batch(rows, earlier);
        lemma_upsert_one_row(before, f);
        lemma_filter_members(before, keep);
        assert(after == before.filter(keep).push(f));
        assert forall|x: MediaFileView| before.contains(x) && x.path != f.path implies after.contains(
            x,
        ) by {
            let a = choose|a: int| 0 <= a < before.len() && before[a] == x;
            assert(before.filter(keep).contains(before[a]));
            let b = choose|b: int| 0 <= b < before.filter(keep).len() && before.filter(keep)[b] == x;
            assert(after[b] == x);
        }
        assert forall|i: int|
            0 <= i < files.len() && (forall|j: int|
                i < j < files.len() ==> (#[trigger] files[j]).path != files[i].path)
                implies after.contains(#[trigger] files[i]) by {
            if i == files.len() - 1 {
                assert(after[after.len() - 1] == f);
            } else {
                assert(earlier[i] == files[i]);
                assert forall|j: int| i < j < earlier.len() implies (#[trigger] earlier[j]).path
                    != earlier[i].path by {
                    assert(earlier[j] == files[j]);
                }
                assert(files[files.len() - 1].path != files[i].path);
                assert(before.contains(earlier[i]));
            }
        }
        assert forall|k: int|
            0 <= k < rows.len() && (forall|j: int|
                0 <= j < files.len() ==> (#[trigger] files[j]).path != rows[k].path)
                implies after.contains(#[trigger] rows[k]) by {
            assert forall|j: int| 0 <= j < earlier.len() implies (#[trigger] earlier[j]).path
                != rows[k].path by {
                assert(earlier[j] == files[j]);
            }
            assert(files[files.len() - 1].path != rows[k].path);
            assert(before.contains(rows[k]));
        }
    } else {
        assert forall|k: int| 0 <= k < rows.len() implies upserted_all(rows, files).contains(
            #[trigger] rows[k],
        ) by {}
    }
}

/// A query lists each row with one of the extensions once and no other row,
/// and no row before one that was seen later.
pub proof fn lemma_listing_order(rows: Seq<MediaFileView>, exts: Seq<Seq<char>>)
    requires
        rows.len() <= usize::MAX,
    ensures
        ({
            let found = rows.filter(has_ext_in(exts));
            let all = listing(rows, exts, None, None);
            &&& all.len() == found.len()
            &&& forall|i: int| 0 <= i < found.len() ==> all.contains(#[trigger] found[i])
            &&& forall|i: int|
                0 <= i < all.len() ==> rows.contains(#[trigger] all[i]) && exts.contains(
                    all[i].ext,
                )
            &&& forall|i: int, j: int|
                0 <= i < j < all.len() ==> (#[trigger] all[i]).last_seen >= (
                #[trigger] all[j]).last_seen
        }),
{
    let found = rows.filter(has_ext_in(exts));
    let keys = recency_keys(found);
    let order = descending_order(keys);
    let sorted = by_recency(found);
    let all = listing(rows, exts, None, None);
    rows.lemma_filter_len(has_ext_in(exts));
    lemma_descending_order(keys);
    lemma_filter_members(rows, has_ext_in(exts));
    assert(all =~= sorted);
    assert forall|i: int| 0 <= i < found.len() implies all.contains(#[trigger] found[i]) by {
        assert(order.contains(i as usize));
        let k = choose|k: int| 0 <= k < order.len() && order[k] == i as usize;
        assert(all[k] == found[i]);
    }
    assert forall|i: int| 0 <= i < all.len() implies rows.contains(#[trigger] all[i])
        && exts.contains(all[i].ext) by {
        assert(all[i] == found[order[i] as int]);
    }
    assert forall|i: int, j: int| 0 <= i < j < all.len() implies (#[trigger] all[i]).last_seen >= (
    #[trigger] all[j]).last_seen by {
        assert(keys[order[i] as int] >= keys[order[j] as int]);
    }
}

} // verus!
