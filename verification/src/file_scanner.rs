//! The scanner's decisions: which directory entries are media files, and how
//! the files found are gathered into batches and progress reports. The caller
//! walks the directory tree and reads each entry's metadata.

use crate::media_cache::{
    current_timestamp, file_views, listing, seen_since, MediaCache, MediaFile, MediaFileView,
};
use crate::text::{slice_view, texts};
use vstd::prelude::*;

verus! {

/// Number of files in a full batch.
pub const BATCH_SIZE: usize = 200;

/// A progress report is due each time this many more files were found.
pub const PROGRESS_INTERVAL: u32 = 50;

/// A file that no scan has seen for this many seconds, 7 days, leaves the
/// catalog.
pub const RETENTION_SECONDS: u64 = 604800;

/// The lower-case form of a string by the standard library's Unicode tables.
pub uninterp spec fn unicode_lowercase(s: Seq<char>) -> Seq<char>;

/// `str::to_lowercase` returns the lower-case equivalent of the string as a new
/// `String`; the result depends on the characters alone.
pub assume_specification[ str::to_lowercase ](s: &str) -> (r: String)
    ensures
        r@ == unicode_lowercase(s@),
;

/// The extensions of the files that a scan picks up.
pub open spec fn supported_extensions() -> Seq<Seq<char>> {
    seq!["mp4"@, "avi"@, "mov"@, "mkv"@, "wmv"@, "flv"@, "webm"@, "m4v"@]
}

/// A name that begins with a dot marks a hidden entry.
pub open spec fn is_hidden(name: Seq<char>) -> bool {
    name.len() > 0 && name[0] == '.'
}

/// Whether the last dot of `name` is at position `i`.
pub open spec fn is_last_dot(name: Seq<char>, i: int) -> bool {
    &&& 0 <= i < name.len()
    &&& name[i] == '.'
    &&& forall|j: int| i < j < name.len() ==> name[j] != '.'
}

/// What follows the last dot of a file name, where that dot is not the name's
/// first character; `None` for a name without such a dot.
pub open spec fn extension_of(name: Seq<char>) -> Option<Seq<char>> {
    if exists|i: int| 0 < i && is_last_dot(name, i) {
        let i = choose|i: int| 0 < i && is_last_dot(name, i);
        Some(name.subrange(i + 1, name.len() as int))
    } else {
        None
    }
}

/// The extension under which a scan takes up an entry, given its name and
/// its extension, each `None` where it is not Unicode text: the extension in
/// lower case, where the name does not mark the entry as hidden and the
/// extension is a supported one. A name that is not Unicode text hides
/// nothing.
pub open spec fn accepted_parts(name: Option<Seq<char>>, extension: Option<Seq<char>>) -> Option<
    Seq<char>,
> {
    if name is Some && is_hidden(name->0) {
        None
    } else {
        match extension {
            None => None,
            Some(e) => if supported_extensions().contains(unicode_lowercase(e)) {
                Some(unicode_lowercase(e))
            } else {
                None
            },
        }
    }
}

/// The extension under which a scan takes up an entry that is known by its
/// name alone: that of [`accepted_parts`] for the name and the name's own
/// extension. Without a name (`None`) the entry is not taken up.
pub open spec fn accepted_extension(name: Option<Seq<char>>) -> Option<Seq<char>> {
    match name {
        None => None,
        Some(n) => accepted_parts(Some(n), extension_of(n)),
    }
}

/// The extension of a file name, as [`extension_of`] defines it.
pub fn extension(name: &str) -> (r: Option<&str>)
    ensures
        slice_view(r) == extension_of(name@),
{
    let chars = crate::text::chars_of(name);
    let mut i: usize = chars.len();
    while i > 0 && chars[i - 1] != '.'
        invariant
            i <= chars.len(),
            forall|j: int| i <= j < chars.len() ==> chars@[j] != '.',
        decreases i,
    {
        i -= 1;
    }
    if i <= 1 {
        assert forall|k: int| !(0 < k && is_last_dot(name@, k)) by {
            if 0 < k && is_last_dot(name@, k) {
                assert(k >= i);
            }
        }
        None
    } else {
        let ghost dot = i - 1;
        assert(0 < dot && is_last_dot(name@, dot));
        assert forall|k: int| 0 < k && is_last_dot(name@, k) implies k == dot by {
            if k < dot {
                assert(name@[dot] == '.');
            }
        }
        Some(name.substring_char(i, chars.len()))
    }
}

/// A batch of files found by a scan, with its number in the scan.
#[derive(Debug, PartialEq, Eq)]
pub struct ScanBatch {
    pub files: Vec<MediaFile>,
    /// 0 for the first batch of a scan.
    pub batch_index: u32,
    /// Unknown while the scan runs: the tree is walked once.
    pub total_batches: Option<u32>,
}

/// The mathematical value of a [`ScanBatch`].
pub struct ScanBatchView {
    pub files: Seq<MediaFileView>,
    pub batch_index: nat,
    pub total_batches: Option<u32>,
}

impl View for ScanBatch {
    type V = ScanBatchView;

    open spec fn view(&self) -> ScanBatchView {
        ScanBatchView {
            files: file_views(self.files@),
            batch_index: self.batch_index as nat,
            total_batches: self.total_batches,
        }
    }
}

/// How far a scan has come.
#[derive(Debug, PartialEq, Eq)]
pub struct ScanProgress {
    /// Files found so far.
    pub scanned: u32,
    /// Unknown while the scan runs.
    pub total: Option<u32>,
    /// The file found last.
    pub current_path: String,
}

/// The mathematical value of a [`ScanProgress`].
pub struct ScanProgressView {
    pub scanned: nat,
    pub total: Option<u32>,
    pub current_path: Seq<char>,
}

impl View for ScanProgress {
    type V = ScanProgressView;

    open spec fn view(&self) -> ScanProgressView {
        ScanProgressView {
            scanned: self.scanned as nat,
            total: self.total,
            current_path: self.current_path@,
        }
    }
}

/// An entry that a scan takes up: made by [`FileScanner::classify`] alone, so
/// its extension is always a supported one.
#[derive(Debug)]
pub struct Candidate {
    ext: String,
}

impl Candidate {
    #[verifier::type_invariant]
    spec fn well_formed(self) -> bool {
        supported_extensions().contains(self.ext@)
    }

    /// The entry's extension, in lower case.
    pub closed spec fn ext(self) -> Seq<char> {
        self.ext@
    }

    /// The entry's extension, in lower case.
    pub fn extension(&self) -> (r: &str)
        ensures
            r@ == self.ext(),
            supported_extensions().contains(r@),
    {
        proof {
            use_type_invariant(self);
        }
        self.ext.as_str()
    }
}

/// Decides which entries of a directory tree are media files.
#[derive(Debug)]
pub struct FileScanner {
    supported_extensions: Vec<String>,
}

impl View for FileScanner {
    type V = Seq<Seq<char>>;

    /// The extensions that the scanner takes up.
    closed spec fn view(&self) -> Seq<Seq<char>> {
        texts(self.supported_extensions@)
    }
}

impl FileScanner {
    #[verifier::type_invariant]
    spec fn well_formed(self) -> bool {
        self@ == supported_extensions()
    }

    /// A scanner for the supported extensions.
    pub fn new() -> (r: Self)
        ensures
            r@ == supported_extensions(),
    {
        let mut list: Vec<String> = Vec::new();
        list.push("mp4".to_owned());
        list.push("avi".to_owned());
        list.push("mov".to_owned());
        list.push("mkv".to_owned());
        list.push("wmv".to_owned());
        list.push("flv".to_owned());
        list.push("webm".to_owned());
        list.push("m4v".to_owned());
        assert(texts(list@) =~= supported_extensions());
        FileScanner { supported_extensions: list }
    }

    /// Whether `ext` is one of the supported extensions, letter for letter.
    pub fn supports(&self, ext: &str) -> (r: bool)
        ensures
            r == supported_extensions().contains(ext@),
    {
        proof {
            use_type_invariant(self);
        }
        let mut i: usize = 0;
        while i < self.supported_extensions.len()
            invariant
                i <= self.supported_extensions.len(),
                texts(self.supported_extensions@) == supported_extensions(),
                forall|k: int| 0 <= k < i ==> supported_extensions()[k] != ext@,
            decreases self.supported_extensions.len() - i,
        {
            assert(supported_extensions()[i as int] == self.supported_extensions@[i as int]@);
            if crate::text::same_text(self.supported_extensions[i].as_str(), ext) {
                return true;
            }
            i += 1;
        }
        false
    }

    /// The supported extensions, in a fixed order.
    pub fn extensions(&self) -> (r: Vec<String>)
        ensures
            texts(r@) == supported_extensions(),
    {
        proof {
            use_type_invariant(self);
        }
        let mut out: Vec<String> = Vec::new();
        let mut i: usize = 0;
        while i < self.supported_extensions.len()
            invariant
                i <= self.supported_extensions.len(),
                out.len() == i,
                forall|k: int| 0 <= k < i ==> out@[k]@ == self.supported_extensions@[k]@,
            decreases self.supported_extensions.len() - i,
        {
            out.push(self.supported_extensions[i].clone());
            i += 1;
        }
        assert(texts(out@) =~= texts(self.supported_extensions@));
        out
    }

    /// Decides on one directory entry by its name and its extension: `Some`
    /// with the extension in lower case where the scan takes the entry up,
    /// `None` where it skips it. Each of the two is `None` where it is not
    /// Unicode text; an entry whose name is not, but whose extension is, is
    /// judged by the extension.
    pub fn classify_entry(&self, file_name: Option<&str>, extension: Option<&str>) -> (r: Option<
        Candidate,
    >)
        ensures
            match r {
                Some(c) => accepted_parts(slice_view(file_name), slice_view(extension)) == Some(
                    c.ext(),
                ),
                None => accepted_parts(slice_view(file_name), slice_view(extension)) is None,
            },
    {
        match file_name {
            Some(name) => {
                let chars = crate::text::chars_of(name);
                if chars.len() > 0 && chars[0] == '.' {
                    return None;
                }
            },
            None => {},
        }
        match extension {
            None => None,
            Some(raw) => {
                let ext = raw.to_lowercase();
                if self.supports(ext.as_str()) {
                    Some(Candidate { ext })
                } else {
                    None
                }
            },
        }
    }

    /// Decides on one directory entry by its name alone, whose extension is
    /// what follows its last dot: `Some` with the extension in lower case
    /// where the scan takes the entry up, `None` where it skips it, and
    /// `None` without a name.
    pub fn classify(&self, file_name: Option<&str>) -> (r: Option<Candidate>)
        ensures
            match r {
                Some(c) => accepted_extension(slice_view(file_name)) == Some(c.ext()),
                None => accepted_extension(slice_view(file_name)) is None,
            },
    {
        match file_name {
            Some(name) => self.classify_entry(Some(name), extension(name)),
            None => None,
        }
    }
}

/// The row that a scan makes of a file it found at time `now`: what only a
/// probe can tell is still missing.
pub open spec fn found_file(
    path: Seq<char>,
    ext: Seq<char>,
    size: u64,
    mtime: u64,
    now: u64,
) -> MediaFileView {
    MediaFileView {
        path,
        mtime,
        size,
        ext,
        duration: None,
        width: None,
        height: None,
        codec: None,
        thumb: None,
        last_seen: now,
    }
}

/// What a scan hands out after one more file.
#[derive(Debug, PartialEq, Eq)]
pub struct ScanStep {
    /// A batch, when this file filled one.
    pub batch: Option<ScanBatch>,
    /// A progress report, when one is due.
    pub progress: Option<ScanProgress>,
}

/// What a scan hands out at its end.
#[derive(Debug, PartialEq, Eq)]
pub struct ScanSummary {
    /// The files that did not fill a batch, if there are any.
    pub last_batch: Option<ScanBatch>,
    /// Number of batches of the whole scan, this last one included.
    pub total_batches: u32,
}

/// The state of a running scan.
#[derive(Debug)]
pub struct ScanSession {
    batch: Vec<MediaFile>,
    scanned: u32,
    flushed: u32,
    now: u64,
}

/// The mathematical value of a [`ScanSession`].
pub struct ScanSessionView {
    /// Files found and not yet handed out.
    pub pending: Seq<MediaFileView>,
    /// Files found so far.
    pub scanned: nat,
    /// Batches handed out so far.
    pub flushed: nat,
    /// When the scan began; the `last_seen` of every file it finds.
    pub now: u64,
}

/// What holds of every scan state: the files found are those handed out in
/// full batches and those pending, and the pending ones do not fill a batch.
pub open spec fn session_wf(s: ScanSessionView) -> bool {
    &&& s.pending.len() < BATCH_SIZE
    &&& s.flushed * BATCH_SIZE + s.pending.len() == s.scanned
}

/// The state of a scan that begins at `now`.
pub open spec fn fresh_session(now: u64) -> ScanSessionView {
    ScanSessionView { pending: Seq::empty(), scanned: 0, flushed: 0, now }
}

/// The batch that finding `f` completes, if it completes one.
pub open spec fn batch_after(s: ScanSessionView, f: MediaFileView) -> Option<ScanBatchView> {
    if s.pending.len() + 1 >= BATCH_SIZE {
        Some(
            ScanBatchView {
                files: s.pending.push(f),
                batch_index: s.flushed,
                total_batches: None,
            },
        )
    } else {
        None
    }
}

/// The progress report that is due after finding `f`, if one is.
pub open spec fn progress_after(s: ScanSessionView, f: MediaFileView) -> Option<
    ScanProgressView,
> {
    if (s.scanned + 1) % (PROGRESS_INTERVAL as nat) == 0 {
        Some(
            ScanProgressView {
                scanned: s.scanned + 1,
                total: None,
                current_path: f.path,
            },
        )
    } else {
        None
    }
}

/// The state of a scan after finding `f`.
pub open spec fn session_after(s: ScanSessionView, f: MediaFileView) -> ScanSessionView {
    if s.pending.len() + 1 >= BATCH_SIZE {
        ScanSessionView {
            pending: Seq::empty(),
            scanned: s.scanned + 1,
            flushed: s.flushed + 1,
            now: s.now,
        }
    } else {
        ScanSessionView {
            pending: s.pending.push(f),
            scanned: s.scanned + 1,
            flushed: s.flushed,
            now: s.now,
        }
    }
}

/// The batch of the files that are pending at the end of a scan.
pub open spec fn last_batch_of(s: ScanSessionView) -> Option<ScanBatchView> {
    if s.pending.len() > 0 {
        Some(ScanBatchView { files: s.pending, batch_index: s.flushed, total_batches: None })
    } else {
        None
    }
}

impl View for ScanSession {
    type V = ScanSessionView;

    closed spec fn view(&self) -> ScanSessionView {
        ScanSessionView {
            pending: file_views(self.batch@),
            scanned: self.scanned as nat,
            flushed: self.flushed as nat,
            now: self.now,
        }
    }
}

impl ScanSession {
    #[verifier::type_invariant]
    spec fn well_formed(self) -> bool {
        session_wf(self@)
    }

    /// The state of a scan that begins at `now`.
    pub fn begin(now: u64) -> (r: Self)
        ensures
            r@ == fresh_session(now),
    {
        let r = ScanSession { batch: Vec::new(), scanned: 0, flushed: 0, now };
        assert(r@.pending =~= Seq::empty());
        r
    }

    /// Files found so far.
    pub fn scanned(&self) -> (r: u32)
        ensures
            r == self@.scanned,
            session_wf(self@),
    {
        proof {
            use_type_invariant(self);
        }
        self.scanned
    }

    /// Takes up one more file: the entry that `candidate` stands for, at
    /// `path`, with the size and modification time read from its metadata.
    /// Gives the next state, and the batch and the progress report that are
    /// due now.
    pub fn accept(self, candidate: Candidate, path: String, size: u64, mtime: u64) -> (r: (
        Self,
        ScanStep,
    ))
        requires
            self@.scanned < u32::MAX,
        ensures
            supported_extensions().contains(candidate.ext()),
            session_wf(self@),
            ({
                let f = found_file(path@, candidate.ext(), size, mtime, self@.now);
                &&& r.0@ == session_after(self@, f)
                &&& step_batch(r.1) == batch_after(self@, f)
                &&& step_progress(r.1) == progress_after(self@, f)
            }),
    {
        proof {
            use_type_invariant(&self);
            use_type_invariant(&candidate);
        }
        let ghost before = self@;
        let ghost f = found_file(path@, candidate.ext(), size, mtime, self@.now);
        let ScanSession { batch, scanned, flushed, now } = self;
        let mut batch = batch;
        let scanned: u32 = scanned + 1;
        let progress = if scanned % PROGRESS_INTERVAL == 0 {
            Some(ScanProgress { scanned, total: None, current_path: path.clone() })
        } else {
            None
        };
        let Candidate { ext } = candidate;
        batch.push(
            MediaFile {
                path,
                mtime,
                size,
                ext,
                duration: None,
                width: None,
                height: None,
                codec: None,
                thumb: None,
                last_seen: now,
            },
        );
        assert(file_views(batch@) =~= before.pending.push(f));
        if batch.len() >= BATCH_SIZE {
            let next = ScanSession { batch: Vec::new(), scanned, flushed: flushed + 1, now };
            assert(next@.pending =~= Seq::empty());
            let full = ScanBatch { files: batch, batch_index: flushed, total_batches: None };
            (next, ScanStep { batch: Some(full), progress })
        } else {
            let next = ScanSession { batch, scanned, flushed, now };
            (next, ScanStep { batch: None, progress })
        }
    }

    /// Ends the scan: the pending files as the last batch, and the number of
    /// batches that the scan has handed out in all.
    pub fn finish(self) -> (r: ScanSummary)
        ensures
            session_wf(self@),
            summary_batch(r) == last_batch_of(self@),
            r.total_batches == self@.flushed + (if self@.pending.len() > 0 {
                1int
            } else {
                0int
            }),
            r.total_batches == (self@.scanned + BATCH_SIZE - 1) / (BATCH_SIZE as int),
    {
        proof {
            use_type_invariant(&self);
        }
        let ScanSession { batch, scanned, flushed, now } = self;
        if batch.len() > 0 {
            let last = ScanBatch { files: batch, batch_index: flushed, total_batches: None };
            ScanSummary { last_batch: Some(last), total_batches: flushed + 1 }
        } else {
            ScanSummary { last_batch: None, total_batches: flushed }
        }
    }
}

/// The value of the batch of a step.
pub open spec fn step_batch(step: ScanStep) -> Option<ScanBatchView> {
    match step.batch {
        Some(b) => Some(b@),
        None => None,
    }
}

/// The value of the progress report of a step.
pub open spec fn step_progress(step: ScanStep) -> Option<ScanProgressView> {
    match step.progress {
        Some(p) => Some(p@),
        None => None,
    }
}

/// The value of the last batch of a summary.
pub open spec fn summary_batch(summary: ScanSummary) -> Option<ScanBatchView> {
    match summary.last_batch {
        Some(b) => Some(b@),
        None => None,
    }
}

/// The state of a scan that began at `now` and has found `files`, in order.
pub open spec fn session_after_all(now: u64, files: Seq<MediaFileView>) -> ScanSessionView
    decreases files.len(),
{
    if files.len() == 0 {
        fresh_session(now)
    } else {
        session_after(session_after_all(now, files.drop_last()), files.last())
    }
}

/// The batches that such a scan has handed out on the way.
pub open spec fn batches_during(now: u64, files: Seq<MediaFileView>) -> Seq<ScanBatchView>
    decreases files.len(),
{
    if files.len() == 0 {
        Seq::empty()
    } else {
        let earlier = batches_during(now, files.drop_last());
        match batch_after(session_after_all(now, files.drop_last()), files.last()) {
            Some(b) => earlier.push(b),
            None => earlier,
        }
    }
}

/// All the batches of a scan that finds `files`: those handed out on the way,
/// then the one handed out at its end.
pub open spec fn scan_batches(now: u64, files: Seq<MediaFileView>) -> Seq<ScanBatchView> {
    match last_batch_of(session_after_all(now, files)) {
        Some(b) => batches_during(now, files).push(b),
        None => batches_during(now, files),
    }
}

/// The `i`-th run of [`BATCH_SIZE`] files; the last run may be shorter.
pub open spec fn chunk(files: Seq<MediaFileView>, i: int) -> Seq<MediaFileView> {
    let end = if (i + 1) * BATCH_SIZE <= files.len() {
        (i + 1) * BATCH_SIZE
    } else {
        files.len() as int
    };
    files.subrange(i * BATCH_SIZE, end)
}

proof fn lemma_session_after_all(now: u64, files: Seq<MediaFileView>)
    ensures
        session_wf(session_after_all(now, files)),
        session_after_all(now, files).now == now,
        session_after_all(now, files).scanned == files.len(),
        session_after_all(now, files).flushed == files.len() / BATCH_SIZE as nat,
        session_after_all(now, files).pending == files.subrange(
            (files.len() / BATCH_SIZE as nat) * BATCH_SIZE,
            files.len() as int,
        ),
        batches_during(now, files).len() == files.len() / BATCH_SIZE as nat,
        forall|i: int|
            0 <= i < batches_during(now, files).len() ==> #[trigger] batches_during(now, files)[i]
                == (ScanBatchView {
                files: chunk(files, i),
                batch_index: i as nat,
                total_batches: None,
            }),
    decreases files.len(),
{
    if files.len() == 0 {
        assert(session_after_all(now, files).pending =~= files.subrange(0, 0));
    } else {
        let prev = files.drop_last();
        let f = files.last();
        lemma_session_after_all(now, prev);
        let s = session_after_all(now, prev);
        let full = prev.len() / BATCH_SIZE as nat;
        assert(s.pending.push(f) =~= files.subrange(full * BATCH_SIZE, files.len() as int));
        assert forall|i: int| 0 <= i < full implies chunk(prev, i) == chunk(files, i) by {
            assert((i + 1) * BATCH_SIZE <= prev.len());
            assert(chunk(prev, i) =~= chunk(files, i));
        }
        if s.pending.len() + 1 >= BATCH_SIZE {
            assert(files.len() == (full + 1) * BATCH_SIZE);
            assert(chunk(files, full as int) =~= s.pending.push(f));
            assert(session_after_all(now, files).pending =~= files.subrange(
                (files.len() / BATCH_SIZE as nat) * BATCH_SIZE,
                files.len() as int,
            ));
        } else {
            assert(files.len() / BATCH_SIZE as nat == full);
        }
    }
}

/// A scan that finds `files`, in this order, hands them out in
/// `ceil(files.len() / BATCH_SIZE)` batches, numbered from 0: each batch holds
/// the next [`BATCH_SIZE`] files in the order found, the last one those that
/// are left. So every file found is in exactly one batch, and nothing else is.
pub proof fn lemma_scan_batches(now: u64, files: Seq<MediaFileView>)
    ensures
        scan_batches(now, files).len() == (files.len() + BATCH_SIZE - 1) / (BATCH_SIZE as int),
        forall|i: int|
            0 <= i < scan_batches(now, files).len() ==> #[trigger] scan_batches(now, files)[i]
                == (ScanBatchView {
                files: chunk(files, i),
                batch_index: i as nat,
                total_batches: None,
            }),
        forall|i: int|
            0 <= i < scan_batches(now, files).len() ==> 0 < (#[trigger] chunk(files, i)).len()
                <= BATCH_SIZE,
{
    lemma_session_after_all(now, files);
    let s = session_after_all(now, files);
    let full = files.len() / BATCH_SIZE as nat;
    if s.pending.len() > 0 {
        assert(chunk(files, full as int) =~= s.pending);
    }
}

/// What an entry's metadata tells.
pub struct StatView {
    pub size: u64,
    pub mtime: u64,
}

/// One entry of a directory tree, as a scan meets it.
pub struct EntryView {
    /// The entry's name; `None` where it is not Unicode text.
    pub name: Option<Seq<char>>,
    /// The entry's extension; `None` where it has none or it is not Unicode
    /// text.
    pub extension: Option<Seq<char>>,
    pub path: Seq<char>,
    /// `None` where the metadata cannot be read.
    pub metadata: Option<StatView>,
}

/// Whether a scan takes the entry up: its name and extension are accepted
/// and its metadata can be read.
pub open spec fn is_taken(e: EntryView) -> bool {
    accepted_parts(e.name, e.extension) is Some && e.metadata is Some
}

/// Passes the entries that a scan takes up.
pub open spec fn taken() -> spec_fn(EntryView) -> bool {
    |e: EntryView| is_taken(e)
}

/// The row that a scan at `now` makes of an entry it takes up.
pub open spec fn file_of(e: EntryView, now: u64) -> MediaFileView {
    found_file(
        e.path,
        accepted_parts(e.name, e.extension)->0,
        e.metadata->0.size,
        e.metadata->0.mtime,
        now,
    )
}

/// The files that a scan at `now` finds among `entries`, in their order.
pub open spec fn found_files(entries: Seq<EntryView>, now: u64) -> Seq<MediaFileView> {
    entries.filter(taken()).map_values(|e: EntryView| file_of(e, now))
}

/// A scan of a tree reports the entries that it takes up, and no others: with
/// `n` such entries among any number of hidden, unsupported and unreadable
/// ones, it hands out `ceil(n / BATCH_SIZE)` batches that hold, in order,
/// one file for each of them, each with a supported extension.
pub proof fn lemma_scan_of_tree(entries: Seq<EntryView>, now: u64)
    ensures
        ({
            let n = entries.filter(taken()).len();
            let files = found_files(entries, now);
            let batches = scan_batches(now, files);
            &&& files.len() == n <= entries.len()
            &&& batches.len() == (n + BATCH_SIZE - 1) / (BATCH_SIZE as int)
            &&& forall|i: int|
                0 <= i < batches.len() ==> (#[trigger] batches[i]).files == chunk(files, i)
                    && batches[i].batch_index == i
            &&& forall|k: int|
                0 <= k < n ==> {
                    let e = #[trigger] entries.filter(taken())[k];
                    &&& entries.contains(e)
                    &&& is_taken(e)
                    &&& files[k] == file_of(e, now)
                    &&& supported_extensions().contains(files[k].ext)
                }
        }),
{
    let files = found_files(entries, now);
    entries.lemma_filter_len(taken());
    crate::seqs::lemma_filter_members(entries, taken());
    lemma_scan_batches(now, files);
}

/// The time before which a file must have been seen last to leave the
/// catalog at `now`.
pub open spec fn retention_cutoff(now: u64) -> u64 {
    if now >= RETENTION_SECONDS {
        (now - RETENTION_SECONDS) as u64
    } else {
        0
    }
}

impl FileScanner {
    /// The catalog's rows with one of `extensions`, or with a supported
    /// extension where none are given; those seen last first, and of them
    /// the page asked for.
    pub fn get_cached_files(
        &self,
        cache: &MediaCache,
        extensions: Option<Vec<String>>,
        limit: Option<u32>,
        offset: Option<u32>,
    ) -> (r: Vec<MediaFile>)
        ensures
            file_views(r@) == listing(
                cache@,
                match extensions {
                    Some(list) => texts(list@),
                    None => supported_extensions(),
                },
                limit,
                offset,
            ),
    {
        let exts = match extensions {
            Some(list) => list,
            None => self.extensions(),
        };
        cache.get_media_by_ext(exts.as_slice(), limit, offset)
    }

    /// Removes from the catalog, at `now`, the files that no scan has seen
    /// for [`RETENTION_SECONDS`].
    pub fn cleanup_old_files_at(&self, cache: &mut MediaCache, now: u64)
        ensures
            final(cache)@ == old(cache)@.filter(seen_since(retention_cutoff(now))),
    {
        let cutoff: u64 = if now >= RETENTION_SECONDS {
            now - RETENTION_SECONDS
        } else {
            0
        };
        cache.cleanup_old_entries(cutoff);
    }

    /// Removes from the catalog the files that no scan has seen for
    /// [`RETENTION_SECONDS`], by the machine's clock.
    pub fn cleanup_old_files(&self, cache: &mut MediaCache)
        ensures
            exists|now: u64|
                final(cache)@ == old(cache)@.filter(seen_since(#[trigger] retention_cutoff(now))),
    {
        let now = current_timestamp();
        self.cleanup_old_files_at(cache, now);
    }
}

} // verus!
