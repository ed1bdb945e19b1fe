//! The asset generator's decisions: the name of each artifact, the command
//! line of each external tool, what to do at each stage of a request, and
//! what a probe's output says. The caller reads the file system and runs the
//! tools.

use crate::fingerprint::{
    cache_key, compute_cache_key, key_input, lemma_cache_key_injective, sha1_digest,
};
use crate::json::{items_of, json_of, json_parse, member_of, text_of, unsigned_of, Json};
use crate::text::{opt_view, slice_view, texts};
use serde_json::Value;
use vstd::prelude::*;
use vstd::string::StringExecFns;

verus! {

/// At most this many external tools run at one time.
pub const MAX_CONCURRENT: usize = 2;

/// Width reported for every thumbnail: the scale filter's upper bound.
pub const THUMBNAIL_WIDTH: u32 = 480;

/// Height reported for every thumbnail, for a 16:9 picture of that width.
pub const THUMBNAIL_HEIGHT: u32 = 270;

/// A thumbnail that is ready.
#[derive(Debug, PartialEq, Eq)]
pub struct ThumbnailResult {
    pub src_path: String,
    pub thumb_path: String,
    pub width: u32,
    pub height: u32,
}

/// The mathematical value of a [`ThumbnailResult`].
pub struct ThumbnailResultView {
    pub src_path: Seq<char>,
    pub thumb_path: Seq<char>,
    pub width: u32,
    pub height: u32,
}

impl View for ThumbnailResult {
    type V = ThumbnailResultView;

    open spec fn view(&self) -> ThumbnailResultView {
        ThumbnailResultView {
            src_path: self.src_path@,
            thumb_path: self.thumb_path@,
            width: self.width,
            height: self.height,
        }
    }
}

impl Clone for ThumbnailResult {
    fn clone(&self) -> (r: Self)
        ensures
            r@ == self@,
    {
        ThumbnailResult {
            src_path: self.src_path.clone(),
            thumb_path: self.thumb_path.clone(),
            width: self.width,
            height: self.height,
        }
    }
}

/// Where the making of a thumbnail stands.
#[derive(Debug, PartialEq, Eq)]
pub struct ThumbnailProgress {
    pub src_path: String,
    /// `generating`, `completed` or `failed`.
    pub status: String,
    /// The tool's diagnostic output, with `failed`.
    pub error: Option<String>,
}

/// The mathematical value of a [`ThumbnailProgress`].
pub struct ThumbnailProgressView {
    pub src_path: Seq<char>,
    pub status: Seq<char>,
    pub error: Option<Seq<char>>,
}

impl View for ThumbnailProgress {
    type V = ThumbnailProgressView;

    open spec fn view(&self) -> ThumbnailProgressView {
        ThumbnailProgressView {
            src_path: self.src_path@,
            status: self.status@,
            error: opt_view(self.error),
        }
    }
}

/// The two kinds of derived asset.
#[derive(Debug, Clone, Copy, PartialEq, Eq, Structural)]
pub enum AssetKind {
    /// One still picture.
    Thumbnail,
    /// A short clip without sound.
    Proxy,
}

/// The file name of an artifact: the cache key and the ending of its kind.
pub open spec fn artifact_file_name(kind: AssetKind, key: Seq<char>) -> Seq<char> {
    match kind {
        AssetKind::Thumbnail => key + ".jpg"@,
        AssetKind::Proxy => key + "_proxy.mp4"@,
    }
}

/// The arguments of the tool that extracts a thumbnail from `src` into `out`:
/// one frame from 3 seconds in, at most 480 wide, as a JPEG of quality 3.
pub open spec fn thumbnail_args(src: Seq<char>, out: Seq<char>) -> Seq<Seq<char>> {
    seq![
        "-y"@,
        "-ss"@,
        "00:00:03"@,
        "-i"@,
        src,
        "-frames:v"@,
        "1"@,
        "-vf"@,
        "scale='min(480,iw)':-1:flags=bicubic"@,
        "-q:v"@,
        "3"@,
        out,
    ]
}

/// The arguments of the tool that cuts a proxy clip from `src` into `out`:
/// 4 seconds from 2 seconds in, no sound, 426 wide, H.264.
pub open spec fn proxy_args(src: Seq<char>, out: Seq<char>) -> Seq<Seq<char>> {
    seq![
        "-y"@,
        "-ss"@,
        "2"@,
        "-i"@,
        src,
        "-t"@,
        "4"@,
        "-an"@,
        "-vf"@,
        "scale=426:-2"@,
        "-c:v"@,
        "libx264"@,
        "-preset"@,
        "veryfast"@,
        "-crf"@,
        "28"@,
        "-pix_fmt"@,
        "yuv420p"@,
        out,
    ]
}

/// The arguments of the tool that probes `src`: quiet, JSON output, the
/// container format and all streams.
pub open spec fn probe_args(src: Seq<char>) -> Seq<Seq<char>> {
    seq!["-v"@, "quiet"@, "-print_format"@, "json"@, "-show_format"@, "-show_streams"@, src]
}

/// The arguments of the tool that makes an artifact of this kind.
pub open spec fn tool_args(kind: AssetKind, src: Seq<char>, out: Seq<char>) -> Seq<Seq<char>> {
    match kind {
        AssetKind::Thumbnail => thumbnail_args(src, out),
        AssetKind::Proxy => proxy_args(src, out),
    }
}

/// The file name of the artifact of this kind for the given cache key.
pub fn artifact_name(kind: AssetKind, key: &str) -> (r: String)
    ensures
        r@ == artifact_file_name(kind, key@),
{
    let name = String::from_str(key);
    match kind {
        AssetKind::Thumbnail => name.concat(".jpg"),
        AssetKind::Proxy => name.concat("_proxy.mp4"),
    }
}

/// The command line that extracts a thumbnail.
pub fn thumbnail_command(src: &str, out: &str) -> (r: Vec<String>)
    ensures
        texts(r@) == thumbnail_args(src@, out@),
{
    let mut args: Vec<String> = Vec::new();
    args.push("-y".to_owned());
    args.push("-ss".to_owned());
    args.push("00:00:03".to_owned());
    args.push("-i".to_owned());
    args.push(src.to_owned());
    args.push("-frames:v".to_owned());
    args.push("1".to_owned());
    args.push("-vf".to_owned());
    args.push("scale='min(480,iw)':-1:flags=bicubic".to_owned());
    args.push("-q:v".to_owned());
    args.push("3".to_owned());
    args.push(out.to_owned());
    assert(texts(args@) =~= thumbnail_args(src@, out@));
    args
}

/// The command line that cuts a proxy clip.
pub fn proxy_command(src: &str, out: &str) -> (r: Vec<String>)
    ensures
        texts(r@) == proxy_args(src@, out@),
{
    let mut args: Vec<String> = Vec::new();
    args.push("-y".to_owned());
    args.push("-ss".to_owned());
    args.push("2".to_owned());
    args.push("-i".to_owned());
    args.push(src.to_owned());
    args.push("-t".to_owned());
    args.push("4".to_owned());
    args.push("-an".to_owned());
    args.push("-vf".to_owned());
    args.push("scale=426:-2".to_owned());
    args.push("-c:v".to_owned());
    args.push("libx264".to_owned());
    args.push("-preset".to_owned());
    args.push("veryfast".to_owned());
    args.push("-crf".to_owned());
    args.push("28".to_owned());
    args.push("-pix_fmt".to_owned());
    args.push("yuv420p".to_owned());
    args.push(out.to_owned());
    assert(texts(args@) =~= proxy_args(src@, out@));
    args
}

/// The command line that probes a file.
pub fn probe_command(src: &str) -> (r: Vec<String>)
    ensures
        texts(r@) == probe_args(src@),
{
    let mut args: Vec<String> = Vec::new();
    args.push("-v".to_owned());
    args.push("quiet".to_owned());
    args.push("-print_format".to_owned());
    args.push("json".to_owned());
    args.push("-show_format".to_owned());
    args.push("-show_streams".to_owned());
    args.push(src.to_owned());
    assert(texts(args@) =~= probe_args(src@));
    args
}

/// What a probe tells of a video file. Each field is missing where the
/// probe's output does not hold it.
#[derive(Debug, PartialEq, Eq)]
pub struct VideoMetadata {
    /// The container's duration in seconds, in the decimal notation of the
    /// probe's output.
    pub duration: Option<String>,
    pub width: Option<u32>,
    pub height: Option<u32>,
    /// Name of the codec of the first video stream.
    pub codec: Option<String>,
}

/// The mathematical value of a [`VideoMetadata`].
pub struct VideoMetadataView {
    pub duration: Option<Seq<char>>,
    pub width: Option<u32>,
    pub height: Option<u32>,
    pub codec: Option<Seq<char>>,
}

impl View for VideoMetadata {
    type V = VideoMetadataView;

    open spec fn view(&self) -> VideoMetadataView {
        VideoMetadataView {
            duration: opt_view(self.duration),
            width: self.width,
            height: self.height,
            codec: opt_view(self.codec),
        }
    }
}

/// No metadata at all.
pub open spec fn no_metadata() -> VideoMetadataView {
    VideoMetadataView { duration: None, width: None, height: None, codec: None }
}

/// Why a probe's output could not be read.
#[derive(Debug, PartialEq, Eq)]
pub enum ProbeError {
    /// The output is no JSON text; the parser's message says why.
    InvalidOutput { message: String },
}

/// Whether a stream descriptor is that of a video stream.
pub open spec fn is_video_stream(stream: Json) -> bool {
    text_of(member_of(stream, "codec_type"@)) == Some("video"@)
}

/// Whether the stream at `i` is a video stream and the first such one.
pub open spec fn is_first_video(streams: Seq<Json>, i: int) -> bool {
    &&& 0 <= i < streams.len()
    &&& is_video_stream(streams[i])
    &&& forall|j: int| 0 <= j < i ==> !is_video_stream(#[trigger] streams[j])
}

/// The first video stream of a list of stream descriptors.
pub open spec fn first_video_stream(streams: Seq<Json>) -> Option<Json> {
    if exists|i: int| is_first_video(streams, i) {
        Some(streams[choose|i: int| is_first_video(streams, i)])
    } else {
        None
    }
}

/// The low 32 bits of a number, where there is one.
pub open spec fn low_32(n: Option<u64>) -> Option<u32> {
    match n {
        Some(v) => Some(v as u32),
        None => None,
    }
}

/// The duration that a probe's output holds: the string `duration` of the
/// object `format`.
pub open spec fn duration_of(doc: Json) -> Option<Seq<char>> {
    match member_of(doc, "format"@) {
        Some(format) => text_of(member_of(format, "duration"@)),
        None => None,
    }
}

/// The video stream that a probe's output describes first, in its array
/// `streams`.
pub open spec fn video_stream_of(doc: Json) -> Option<Json> {
    match items_of(member_of(doc, "streams"@)) {
        Some(streams) => first_video_stream(streams),
        None => None,
    }
}

/// The metadata that a probe's output holds: the container's duration, and
/// the width, height and codec name of the first video stream.
pub open spec fn metadata_of(doc: Json) -> VideoMetadataView {
    match video_stream_of(doc) {
        Some(stream) => VideoMetadataView {
            duration: duration_of(doc),
            width: low_32(unsigned_of(member_of(stream, "width"@))),
            height: low_32(unsigned_of(member_of(stream, "height"@))),
            codec: text_of(member_of(stream, "codec_name"@)),
        },
        None => VideoMetadataView {
            duration: duration_of(doc),
            width: None,
            height: None,
            codec: None,
        },
    }
}

/// What a probe run tells: nothing where the tool failed, else what its
/// output holds; `None` where that output is no JSON text.
pub open spec fn probe_result(success: bool, stdout: Seq<u8>) -> Option<VideoMetadataView> {
    if !success {
        Some(no_metadata())
    } else {
        match json_parse(stdout) {
            Some(doc) => Some(metadata_of(doc)),
            None => None,
        }
    }
}

/// An owned copy of an optional string slice.
fn owned(o: Option<&str>) -> (r: Option<String>)
    ensures
        opt_view(r) == slice_view(o),
{
    match o {
        Some(s) => Some(s.to_owned()),
        None => None,
    }
}

/// The low 32 bits of a number, where there is one.
fn narrow(n: Option<u64>) -> (r: Option<u32>)
    ensures
        r == low_32(n),
{
    match n {
        Some(v) => Some(#[verifier::truncate] (v as u32)),
        None => None,
    }
}

/// The first video stream among `streams`.
fn find_video_stream(streams: &Vec<Value>) -> (r: Option<&Value>)
    ensures
        match r {
            Some(s) => first_video_stream(crate::json::jsons_of(streams@)) == Some(json_of(*s)),
            None => first_video_stream(crate::json::jsons_of(streams@)) is None,
        },
{
    let ghost all = crate::json::jsons_of(streams@);
    let mut i: usize = 0;
    while i < streams.len()
        invariant
            i <= streams.len(),
            all == crate::json::jsons_of(streams@),
            forall|j: int| 0 <= j < i ==> !is_video_stream(#[trigger] all[j]),
        decreases streams.len() - i,
    {
        let stream = &streams[i];
        assert(all[i as int] == json_of(*stream));
        let is_video = match crate::json::text_member(stream, "codec_type") {
            Some(kind) => crate::text::same_text(kind, "video"),
            None => false,
        };
        if is_video {
            proof {
                assert(is_first_video(all, i as int));
                let k = choose|k: int| is_first_video(all, k);
                assert(k == i) by {
                    if k < i {
                        assert(!is_video_stream(all[k]));
                    } else if k > i {
                        assert(!is_video_stream(all[i as int]));
                    }
                }
            }
            return Some(stream);
        }
        i += 1;
    }
    assert forall|k: int| !is_first_video(all, k) by {
        if is_first_video(all, k) {
            assert(!is_video_stream(all[k]));
        }
    }
    None
}

/// Reads the metadata out of a probe's parsed output.
pub fn read_metadata(doc: &Value) -> (r: VideoMetadata)
    ensures
        r@ == metadata_of(json_of(*doc)),
{
    let duration = match crate::json::member(doc, "format") {
        Some(format) => owned(crate::json::text_member(format, "duration")),
        None => None,
    };
    let streams = match crate::json::member(doc, "streams") {
        Some(list) => list.as_array(),
        None => None,
    };
    let video = match streams {
        Some(list) => find_video_stream(list),
        None => None,
    };
    match video {
        Some(stream) => VideoMetadata {
            duration,
            width: narrow(crate::json::unsigned_member(stream, "width")),
            height: narrow(crate::json::unsigned_member(stream, "height")),
            codec: owned(crate::json::text_member(stream, "codec_name")),
        },
        None => VideoMetadata { duration, width: None, height: None, codec: None },
    }
}

/// Where a request for an artifact stands.
#[derive(Debug, PartialEq, Eq)]
pub enum AssetState {
    /// Nothing was asked for yet.
    Idle,
    /// The source file's modification time is being read.
    AwaitingModified { src: String },
    /// The artifact is being looked for in the cache directory.
    AwaitingArtifact { src: String, file_name: String },
    /// The artifact is missing and every tool slot is taken.
    AwaitingSlot { src: String, artifact: String },
    /// The tool runs, and holds one slot.
    AwaitingTool { src: String, artifact: String },
    /// The request has been answered.
    Finished,
}

/// The mathematical value of an [`AssetState`].
pub enum AssetStateView {
    Idle,
    AwaitingModified { src: Seq<char> },
    AwaitingArtifact { src: Seq<char>, file_name: Seq<char> },
    AwaitingSlot { src: Seq<char>, artifact: Seq<char> },
    AwaitingTool { src: Seq<char>, artifact: Seq<char> },
    Finished,
}

impl View for AssetState {
    type V = AssetStateView;

    open spec fn view(&self) -> AssetStateView {
        match *self {
            AssetState::Idle => AssetStateView::Idle,
            AssetState::AwaitingModified { src } => AssetStateView::AwaitingModified { src: src@ },
            AssetState::AwaitingArtifact { src, file_name } => AssetStateView::AwaitingArtifact {
                src: src@,
                file_name: file_name@,
            },
            AssetState::AwaitingSlot { src, artifact } => AssetStateView::AwaitingSlot {
                src: src@,
                artifact: artifact@,
            },
            AssetState::AwaitingTool { src, artifact } => AssetStateView::AwaitingTool {
                src: src@,
                artifact: artifact@,
            },
            AssetState::Finished => AssetStateView::Finished,
        }
    }
}

/// What the caller reports to a request.
#[derive(Debug, PartialEq, Eq)]
pub enum AssetEvent {
    /// An artifact of the file at `src` is asked for.
    Requested { src: String },
    /// The source file was last modified at `mtime`, seconds since the epoch.
    Modified { mtime: u64 },
    /// What was asked of the caller last could not be done.
    IoFailed { error: String },
    /// The artifact's place is `artifact`, and a file is there or not.
    Located { artifact: String, exists: bool },
    /// A tool slot may have become free.
    SlotFreed,
    /// The tool has ended, with its diagnostic output.
    ToolExited { success: bool, stderr: String },
}

/// The mathematical value of an [`AssetEvent`].
pub enum AssetEventView {
    Requested { src: Seq<char> },
    Modified { mtime: u64 },
    IoFailed { error: Seq<char> },
    Located { artifact: Seq<char>, exists: bool },
    SlotFreed,
    ToolExited { success: bool, stderr: Seq<char> },
}

impl View for AssetEvent {
    type V = AssetEventView;

    open spec fn view(&self) -> AssetEventView {
        match *self {
            AssetEvent::Requested { src } => AssetEventView::Requested { src: src@ },
            AssetEvent::Modified { mtime } => AssetEventView::Modified { mtime },
            AssetEvent::IoFailed { error } => AssetEventView::IoFailed { error: error@ },
            AssetEvent::Located { artifact, exists } => AssetEventView::Located {
                artifact: artifact@,
                exists,
            },
            AssetEvent::SlotFreed => AssetEventView::SlotFreed,
            AssetEvent::ToolExited { success, stderr } => AssetEventView::ToolExited {
                success,
                stderr: stderr@,
            },
        }
    }
}

/// What a request asks of the caller.
#[derive(Debug, PartialEq, Eq)]
pub enum AssetAction {
    /// Tell the front end where the thumbnail stands.
    ReportProgress(ThumbnailProgress),
    /// Read the modification time of the file at `path`; answer with
    /// `Modified` or `IoFailed`.
    ReadModified { path: String },
    /// Find the place of `file_name` in the cache directory; answer with
    /// `Located`.
    LocateArtifact { file_name: String },
    /// Come back with `SlotFreed` when a tool has ended.
    WaitForSlot,
    /// Run the tool; answer with `ToolExited`, or `IoFailed` where it could
    /// not be started.
    RunTool { program: String, args: Vec<String> },
    /// Remove the file at `path`, if there is one.
    RemoveArtifact { path: String },
    /// Note in the catalog that the file at `path` has the thumbnail `thumb`.
    RecordThumbnail { path: String, thumb: String },
    /// Tell the front end that the thumbnail is ready.
    ReportThumbnail(ThumbnailResult),
    /// Tell the front end that the proxy clip is ready.
    ReportProxy { src: String, proxy_path: String },
    /// The request's answer: the thumbnail.
    ThumbnailDone(ThumbnailResult),
    /// The request's answer: the path of the proxy clip.
    ProxyDone(String),
    /// The request's answer: it failed, and why.
    Failed(String),
}

/// The mathematical value of an [`AssetAction`].
pub enum AssetActionView {
    ReportProgress(ThumbnailProgressView),
    ReadModified { path: Seq<char> },
    LocateArtifact { file_name: Seq<char> },
    WaitForSlot,
    RunTool { program: Seq<char>, args: Seq<Seq<char>> },
    RemoveArtifact { path: Seq<char> },
    RecordThumbnail { path: Seq<char>, thumb: Seq<char> },
    ReportThumbnail(ThumbnailResultView),
    ReportProxy { src: Seq<char>, proxy_path: Seq<char> },
    ThumbnailDone(ThumbnailResultView),
    ProxyDone(Seq<char>),
    Failed(Seq<char>),
}

impl View for AssetAction {
    type V = AssetActionView;

    open spec fn view(&self) -> AssetActionView {
        match *self {
            AssetAction::ReportProgress(p) => AssetActionView::ReportProgress(p@),
            AssetAction::ReadModified { path } => AssetActionView::ReadModified { path: path@ },
            AssetAction::LocateArtifact { file_name } => AssetActionView::LocateArtifact {
                file_name: file_name@,
            },
            AssetAction::WaitForSlot => AssetActionView::WaitForSlot,
            AssetAction::RunTool { program, args } => AssetActionView::RunTool {
                program: program@,
                args: texts(args@),
            },
            AssetAction::RemoveArtifact { path } => AssetActionView::RemoveArtifact {
                path: path@,
            },
            AssetAction::RecordThumbnail { path, thumb } => AssetActionView::RecordThumbnail {
                path: path@,
                thumb: thumb@,
            },
            AssetAction::ReportThumbnail(t) => AssetActionView::ReportThumbnail(t@),
            AssetAction::ReportProxy { src, proxy_path } => AssetActionView::ReportProxy {
                src: src@,
                proxy_path: proxy_path@,
            },
            AssetAction::ThumbnailDone(t) => AssetActionView::ThumbnailDone(t@),
            AssetAction::ProxyDone(path) => AssetActionView::ProxyDone(path@),
            AssetAction::Failed(error) => AssetActionView::Failed(error@),
        }
    }
}

/// The value of each action of a list.
pub open spec fn action_views(actions: Seq<AssetAction>) -> Seq<AssetActionView> {
    Seq::new(actions.len(), |i: int| actions[i]@)
}

/// The next state of a request, what it asks of the caller, and the number
/// of tools that run after that.
pub struct AssetStep {
    pub state: AssetStateView,
    pub actions: Seq<AssetActionView>,
    pub in_flight: nat,
}

/// A progress report.
pub open spec fn progress_report(
    src: Seq<char>,
    status: Seq<char>,
    error: Option<Seq<char>>,
) -> AssetActionView {
    AssetActionView::ReportProgress(ThumbnailProgressView { src_path: src, status, error })
}

/// The thumbnail of `src` at `artifact`.
pub open spec fn thumbnail_at(src: Seq<char>, artifact: Seq<char>) -> ThumbnailResultView {
    ThumbnailResultView {
        src_path: src,
        thumb_path: artifact,
        width: THUMBNAIL_WIDTH,
        height: THUMBNAIL_HEIGHT,
    }
}

/// What a request hands out once its artifact is there: for a thumbnail
/// that the tool has just made, the catalog entry and the closing progress
/// report as well.
pub open spec fn ready_actions(
    kind: AssetKind,
    src: Seq<char>,
    artifact: Seq<char>,
    fresh: bool,
) -> Seq<AssetActionView> {
    match kind {
        AssetKind::Thumbnail => if fresh {
            seq![
                AssetActionView::RecordThumbnail { path: src, thumb: artifact },
                AssetActionView::ReportThumbnail(thumbnail_at(src, artifact)),
                progress_report(src, "completed"@, None),
                AssetActionView::ThumbnailDone(thumbnail_at(src, artifact)),
            ]
        } else {
            seq![
                AssetActionView::ReportThumbnail(thumbnail_at(src, artifact)),
                AssetActionView::ThumbnailDone(thumbnail_at(src, artifact)),
            ]
        },
        AssetKind::Proxy => seq![
            AssetActionView::ReportProxy { src, proxy_path: artifact },
            AssetActionView::ProxyDone(artifact),
        ],
    }
}

/// The error of a request whose tool failed: a fixed opening, then the
/// tool's diagnostic output.
pub open spec fn tool_error(kind: AssetKind, stderr: Seq<char>) -> Seq<char> {
    match kind {
        AssetKind::Thumbnail => "FFmpeg failed: "@ + stderr,
        AssetKind::Proxy => "FFmpeg proxy generation failed: "@ + stderr,
    }
}

/// What a request hands out once its tool has failed: the artifact's place
/// is cleared, so that nothing there passes for a finished artifact.
pub open spec fn failure_actions(
    kind: AssetKind,
    src: Seq<char>,
    artifact: Seq<char>,
    stderr: Seq<char>,
) -> Seq<AssetActionView> {
    match kind {
        AssetKind::Thumbnail => seq![
            AssetActionView::RemoveArtifact { path: artifact },
            progress_report(src, "failed"@, Some(stderr)),
            AssetActionView::Failed(tool_error(kind, stderr)),
        ],
        AssetKind::Proxy => seq![
            AssetActionView::RemoveArtifact { path: artifact },
            AssetActionView::Failed(tool_error(kind, stderr)),
        ],
    }
}

/// A request whose artifact is missing starts the tool where a slot is
/// free, and waits where none is.
pub open spec fn start_tool(
    kind: AssetKind,
    in_flight: nat,
    src: Seq<char>,
    artifact: Seq<char>,
) -> AssetStep {
    if in_flight < MAX_CONCURRENT {
        AssetStep {
            state: AssetStateView::AwaitingTool { src, artifact },
            actions: seq![
                AssetActionView::RunTool { program: "ffmpeg"@, args: tool_args(kind, src, artifact) },
            ],
            in_flight: in_flight + 1,
        }
    } else {
        AssetStep {
            state: AssetStateView::AwaitingSlot { src, artifact },
            actions: seq![AssetActionView::WaitForSlot],
            in_flight,
        }
    }
}

/// The number of running tools after one of them has ended.
pub open spec fn released(in_flight: nat) -> nat {
    if in_flight > 0 {
        (in_flight - 1) as nat
    } else {
        0
    }
}

/// One step of a request for an artifact of this kind, while `in_flight`
/// tools run: from its state and what the caller reports, to its next state
/// and what it asks of the caller. A report that the state does not wait for
/// changes nothing and asks for nothing.
pub open spec fn asset_step(
    kind: AssetKind,
    in_flight: nat,
    state: AssetStateView,
    event: AssetEventView,
) -> AssetStep {
    match (state, event) {
        (AssetStateView::Idle, AssetEventView::Requested { src }) => AssetStep {
            state: AssetStateView::AwaitingModified { src },
            actions: match kind {
                AssetKind::Thumbnail => seq![
                    progress_report(src, "generating"@, None),
                    AssetActionView::ReadModified { path: src },
                ],
                AssetKind::Proxy => seq![AssetActionView::ReadModified { path: src }],
            },
            in_flight,
        },
        (AssetStateView::AwaitingModified { src }, AssetEventView::Modified { mtime }) => AssetStep {
            state: AssetStateView::AwaitingArtifact {
                src,
                file_name: artifact_file_name(kind, cache_key(src, mtime)),
            },
            actions: seq![
                AssetActionView::LocateArtifact {
                    file_name: artifact_file_name(kind, cache_key(src, mtime)),
                },
            ],
            in_flight,
        },
        (AssetStateView::AwaitingModified { src }, AssetEventView::IoFailed { error }) => AssetStep {
            state: AssetStateView::Finished,
            actions: seq![AssetActionView::Failed(error)],
            in_flight,
        },
        (
            AssetStateView::AwaitingArtifact { src, file_name },
            AssetEventView::Located { artifact, exists },
        ) => if exists {
            AssetStep {
                state: AssetStateView::Finished,
                actions: ready_actions(kind, src, artifact, false),
                in_flight,
            }
        } else {
            start_tool(kind, in_flight, src, artifact)
        },
        (AssetStateView::AwaitingSlot { src, artifact }, AssetEventView::SlotFreed) => start_tool(
            kind,
            in_flight,
            src,
            artifact,
        ),
        (
            AssetStateView::AwaitingTool { src, artifact },
            AssetEventView::ToolExited { success, stderr },
        ) => AssetStep {
            state: AssetStateView::Finished,
            actions: if success {
                ready_actions(kind, src, artifact, true)
            } else {
                failure_actions(kind, src, artifact, stderr)
            },
            in_flight: released(in_flight),
        },
        (AssetStateView::AwaitingTool { src, artifact }, AssetEventView::IoFailed { error }) => AssetStep {
            state: AssetStateView::Finished,
            actions: seq![AssetActionView::Failed(error)],
            in_flight: released(in_flight),
        },
        _ => AssetStep { state, actions: Seq::empty(), in_flight },
    }
}

fn progress(src: &str, status: &str, error: Option<String>) -> (r: AssetAction)
    ensures
        r@ == progress_report(src@, status@, opt_view(error)),
{
    AssetAction::ReportProgress(
        ThumbnailProgress { src_path: src.to_owned(), status: status.to_owned(), error },
    )
}

fn thumbnail(src: &str, artifact: &str) -> (r: ThumbnailResult)
    ensures
        r@ == thumbnail_at(src@, artifact@),
{
    ThumbnailResult {
        src_path: src.to_owned(),
        thumb_path: artifact.to_owned(),
        width: THUMBNAIL_WIDTH,
        height: THUMBNAIL_HEIGHT,
    }
}

fn ready(kind: AssetKind, src: String, artifact: String, fresh: bool) -> (r: Vec<AssetAction>)
    ensures
        action_views(r@) == ready_actions(kind, src@, artifact@, fresh),
{
    let mut actions: Vec<AssetAction> = Vec::new();
    match kind {
        AssetKind::Thumbnail => {
            let result = thumbnail(src.as_str(), artifact.as_str());
            if fresh {
                actions.push(
                    AssetAction::RecordThumbnail { path: src.clone(), thumb: artifact.clone() },
                );
                actions.push(AssetAction::ReportThumbnail(result.clone()));
                actions.push(progress(src.as_str(), "completed", None));
            } else {
                actions.push(AssetAction::ReportThumbnail(result.clone()));
            }
            actions.push(AssetAction::ThumbnailDone(result));
        },
        AssetKind::Proxy => {
            actions.push(AssetAction::ReportProxy { src, proxy_path: artifact.clone() });
            actions.push(AssetAction::ProxyDone(artifact));
        },
    }
    assert(action_views(actions@) =~= ready_actions(kind, src@, artifact@, fresh));
    actions
}

fn failure(kind: AssetKind, src: String, artifact: String, stderr: String) -> (r: Vec<AssetAction>)
    ensures
        action_views(r@) == failure_actions(kind, src@, artifact@, stderr@),
{
    let mut actions: Vec<AssetAction> = Vec::new();
    actions.push(AssetAction::RemoveArtifact { path: artifact });
    match kind {
        AssetKind::Thumbnail => {
            let error = String::from_str("FFmpeg failed: ").concat(stderr.as_str());
            actions.push(progress(src.as_str(), "failed", Some(stderr)));
            actions.push(AssetAction::Failed(error));
        },
        AssetKind::Proxy => {
            let error = String::from_str("FFmpeg proxy generation failed: ").concat(
                stderr.as_str(),
            );
            actions.push(AssetAction::Failed(error));
        },
    }
    assert(action_views(actions@) =~= failure_actions(kind, src@, artifact@, stderr@));
    actions
}

fn one(action: AssetAction) -> (r: Vec<AssetAction>)
    ensures
        action_views(r@) == seq![action@],
{
    let mut actions: Vec<AssetAction> = Vec::new();
    actions.push(action);
    assert(action_views(actions@) =~= seq![action@]);
    actions
}

fn none() -> (r: Vec<AssetAction>)
    ensures
        action_views(r@) == Seq::<AssetActionView>::empty(),
{
    let actions: Vec<AssetAction> = Vec::new();
    assert(action_views(actions@) =~= Seq::<AssetActionView>::empty());
    actions
}

/// Turns requests for thumbnails and proxy clips into what the caller has to
/// do, and keeps count of the tools that run.
#[derive(Debug)]
pub struct ThumbnailGenerator {
    max_concurrent: usize,
    in_flight: usize,
}

impl ThumbnailGenerator {
    #[verifier::type_invariant]
    spec fn well_formed(self) -> bool {
        &&& self.max_concurrent == MAX_CONCURRENT
        &&& self.in_flight <= self.max_concurrent
    }

    /// Number of tools that run.
    pub closed spec fn in_flight(self) -> nat {
        self.in_flight as nat
    }

    /// A generator with no tool running.
    pub fn new() -> (r: Self)
        ensures
            r.in_flight() == 0,
    {
        ThumbnailGenerator { max_concurrent: MAX_CONCURRENT, in_flight: 0 }
    }

    /// Number of tools that run; never more than [`MAX_CONCURRENT`].
    pub fn running(&self) -> (r: usize)
        ensures
            r == self.in_flight(),
            r <= MAX_CONCURRENT,
    {
        proof {
            use_type_invariant(self);
        }
        self.in_flight
    }

    /// The cache key of the version of the file at `file_path` that was last
    /// modified at `mtime`: 40 hexadecimal digits.
    pub fn generate_cache_key(&self, file_path: &str, mtime: u64) -> (r: String)
        ensures
            r@ == cache_key(file_path@, mtime),
            r@.len() == 40,
    {
        compute_cache_key(file_path, mtime)
    }

    fn start(&mut self, kind: AssetKind, src: String, artifact: String) -> (r: (
        AssetState,
        Vec<AssetAction>,
    ))
        ensures
            ({
                let o = start_tool(kind, old(self).in_flight(), src@, artifact@);
                &&& r.0@ == o.state
                &&& action_views(r.1@) == o.actions
                &&& final(self).in_flight() == o.in_flight
            }),
    {
        proof {
            use_type_invariant(&*self);
        }
        if self.in_flight < self.max_concurrent {
            let args = match kind {
                AssetKind::Thumbnail => thumbnail_command(src.as_str(), artifact.as_str()),
                AssetKind::Proxy => proxy_command(src.as_str(), artifact.as_str()),
            };
            self.in_flight = self.in_flight + 1;
            let actions = one(AssetAction::RunTool { program: "ffmpeg".to_owned(), args });
            (AssetState::AwaitingTool { src, artifact }, actions)
        } else {
            (AssetState::AwaitingSlot { src, artifact }, one(AssetAction::WaitForSlot))
        }
    }

    fn release(&mut self)
        ensures
            final(self).in_flight() == released(old(self).in_flight()),
    {
        proof {
            use_type_invariant(&*self);
        }
        if self.in_flight > 0 {
            self.in_flight = self.in_flight - 1;
        }
    }

    /// One step of a request for an artifact of this kind: see [`asset_step`].
    pub fn step(&mut self, kind: AssetKind, state: AssetState, event: AssetEvent) -> (r: (
        AssetState,
        Vec<AssetAction>,
    ))
        ensures
            ({
                let o = asset_step(kind, old(self).in_flight(), state@, event@);
                &&& r.0@ == o.state
                &&& action_views(r.1@) == o.actions
                &&& final(self).in_flight() == o.in_flight
            }),
            final(self).in_flight() <= MAX_CONCURRENT,
    {
        proof {
            use_type_invariant(&*self);
        }
        match state {
            AssetState::Idle => match event {
                AssetEvent::Requested { src } => {
                    let mut actions: Vec<AssetAction> = Vec::new();
                    match kind {
                        AssetKind::Thumbnail => {
                            actions.push(progress(src.as_str(), "generating", None));
                        },
                        AssetKind::Proxy => {},
                    }
                    actions.push(AssetAction::ReadModified { path: src.clone() });
                    assert(action_views(actions@) =~= asset_step(
                        kind,
                        old(self).in_flight(),
                        state@,
                        event@,
                    ).actions);
                    (AssetState::AwaitingModified { src }, actions)
                },
                _ => (AssetState::Idle, none()),
            },
            AssetState::AwaitingModified { src } => match event {
                AssetEvent::Modified { mtime } => {
                    let key = compute_cache_key(src.as_str(), mtime);
                    let file_name = artifact_name(kind, key.as_str());
                    let actions = one(
                        AssetAction::LocateArtifact { file_name: file_name.clone() },
                    );
                    (AssetState::AwaitingArtifact { src, file_name }, actions)
                },
                AssetEvent::IoFailed { error } => (
                    AssetState::Finished,
                    one(AssetAction::Failed(error)),
                ),
                _ => (AssetState::AwaitingModified { src }, none()),
            },
            AssetState::AwaitingArtifact { src, file_name } => match event {
                AssetEvent::Located { artifact, exists } => {
                    if exists {
                        (AssetState::Finished, ready(kind, src, artifact, false))
                    } else {
                        self.start(kind, src, artifact)
                    }
                },
                _ => (AssetState::AwaitingArtifact { src, file_name }, none()),
            },
            AssetState::AwaitingSlot { src, artifact } => match event {
                AssetEvent::SlotFreed => self.start(kind, src, artifact),
                _ => (AssetState::AwaitingSlot { src, artifact }, none()),
            },
            AssetState::AwaitingTool { src, artifact } => match event {
                AssetEvent::ToolExited { success, stderr } => {
                    self.release();
                    if success {
                        (AssetState::Finished, ready(kind, src, artifact, true))
                    } else {
                        (AssetState::Finished, failure(kind, src, artifact, stderr))
                    }
                },
                AssetEvent::IoFailed { error } => {
                    self.release();
                    (AssetState::Finished, one(AssetAction::Failed(error)))
                },
                _ => (AssetState::AwaitingTool { src, artifact }, none()),
            },
            AssetState::Finished => (AssetState::Finished, none()),
        }
    }

    /// One step of a request for a thumbnail: from the request's state and
    /// what the caller reports, to its next state and what it asks of the
    /// caller.
    pub fn generate_thumbnail(&mut self, state: AssetState, event: AssetEvent) -> (r: (
        AssetState,
        Vec<AssetAction>,
    ))
        ensures
            ({
                let o = asset_step(AssetKind::Thumbnail, old(self).in_flight(), state@, event@);
                &&& r.0@ == o.state
                &&& action_views(r.1@) == o.actions
                &&& final(self).in_flight() == o.in_flight
            }),
            final(self).in_flight() <= MAX_CONCURRENT,
    {
        self.step(AssetKind::Thumbnail, state, event)
    }

    /// One step of a request for a proxy clip, as
    /// [`ThumbnailGenerator::generate_thumbnail`] for a thumbnail.
    pub fn generate_proxy_clip(&mut self, state: AssetState, event: AssetEvent) -> (r: (
        AssetState,
        Vec<AssetAction>,
    ))
        ensures
            ({
                let o = asset_step(AssetKind::Proxy, old(self).in_flight(), state@, event@);
                &&& r.0@ == o.state
                &&& action_views(r.1@) == o.actions
                &&& final(self).in_flight() == o.in_flight
            }),
            final(self).in_flight() <= MAX_CONCURRENT,
    {
        self.step(AssetKind::Proxy, state, event)
    }

    /// Takes a tool slot for a probe of the file at `src` where one is free,
    /// and gives the probe's command line. While every slot is taken it
    /// gives `None` and changes nothing: the probe has to wait for a tool to
    /// end.
    pub fn start_probe(&mut self, src: &str) -> (r: Option<Vec<String>>)
        ensures
            final(self).in_flight() <= MAX_CONCURRENT,
            match r {
                Some(args) => {
                    &&& old(self).in_flight() < MAX_CONCURRENT
                    &&& final(self).in_flight() == old(self).in_flight() + 1
                    &&& texts(args@) == probe_args(src@)
                },
                None => {
                    &&& old(self).in_flight() >= MAX_CONCURRENT
                    &&& final(self).in_flight() == old(self).in_flight()
                },
            },
    {
        proof {
            use_type_invariant(&*self);
        }
        if self.in_flight < self.max_concurrent {
            self.in_flight = self.in_flight + 1;
            Some(probe_command(src))
        } else {
            None
        }
    }

    /// Gives back the slot of a probe that has ended, and tells what the
    /// probe run tells: see [`ThumbnailGenerator::get_video_metadata`].
    pub fn finish_probe(&mut self, success: bool, stdout: &[u8]) -> (r: Result<
        VideoMetadata,
        ProbeError,
    >)
        ensures
            final(self).in_flight() == released(old(self).in_flight()),
            final(self).in_flight() <= MAX_CONCURRENT,
            match r {
                Ok(m) => probe_result(success, stdout@) == Some(m@),
                Err(_) => probe_result(success, stdout@) is None,
            },
    {
        proof {
            use_type_invariant(&*self);
        }
        self.release();
        self.get_video_metadata(success, stdout)
    }

    /// Gives back the slot of a probe whose tool could not be started.
    pub fn abandon_probe(&mut self)
        ensures
            final(self).in_flight() == released(old(self).in_flight()),
            final(self).in_flight() <= MAX_CONCURRENT,
    {
        proof {
            use_type_invariant(&*self);
        }
        self.release();
    }

    /// What a probe run tells of a file: `success` says whether the tool
    /// ended well, `stdout` is what it printed. A failed run tells nothing,
    /// which is no error; output that is no JSON text is one.
    pub fn get_video_metadata(&self, success: bool, stdout: &[u8]) -> (r: Result<
        VideoMetadata,
        ProbeError,
    >)
        ensures
            match r {
                Ok(m) => probe_result(success, stdout@) == Some(m@),
                Err(_) => probe_result(success, stdout@) is None,
            },
    {
        if !success {
            return Ok(VideoMetadata { duration: None, width: None, height: None, codec: None });
        }
        match crate::json::parse(stdout) {
            Ok(doc) => Ok(read_metadata(&doc)),
            Err(e) => Err(ProbeError::InvalidOutput { message: crate::json::error_message(&e) }),
        }
    }
}

/// The artifact that a request looks for is named by the kind, the path and
/// the modification time alone: two requests for one version of a file look
/// for one artifact, however many tools run.
pub proof fn lemma_artifact_follows_version(
    kind: AssetKind,
    in_flight: nat,
    src: Seq<char>,
    mtime: u64,
)
    ensures
        asset_step(
            kind,
            in_flight,
            AssetStateView::AwaitingModified { src },
            AssetEventView::Modified { mtime },
        ).actions == seq![
            AssetActionView::LocateArtifact {
                file_name: artifact_file_name(kind, cache_key(src, mtime)),
            },
        ],
{
}

/// Two file versions are looked for under one artifact name only where they
/// are one version, or where SHA-1 gives two different inputs one digest: a
/// file that was modified is not served the artifact of its earlier version.
pub proof fn lemma_artifact_names_differ(
    kind: AssetKind,
    p1: Seq<char>,
    m1: u64,
    p2: Seq<char>,
    m2: u64,
)
    requires
        artifact_file_name(kind, cache_key(p1, m1)) == artifact_file_name(kind, cache_key(p2, m2)),
    ensures
        (p1 == p2 && m1 == m2) || (key_input(p1, m1) != key_input(p2, m2) && sha1_digest(
            key_input(p1, m1),
        ) == sha1_digest(key_input(p2, m2))),
{
    let k1 = cache_key(p1, m1);
    let k2 = cache_key(p2, m2);
    let n1 = artifact_file_name(kind, k1);
    let n2 = artifact_file_name(kind, k2);
    assert(k1.len() == k2.len()) by {
        assert(n1.len() == n2.len());
    }
    assert(n1.subrange(0, k1.len() as int) =~= k1);
    assert(n2.subrange(0, k2.len() as int) =~= k2);
    lemma_cache_key_injective(p1, m1, p2, m2);
}

/// A request whose artifact is missing, with a slot free, makes it once: it
/// looks under the name of the file's version, runs the tool one time with
/// the place found as its output, and, the tool ending well, ends with that
/// place as its answer and the slot given back.
pub proof fn lemma_missing_artifact_is_made_once(
    kind: AssetKind,
    in_flight: nat,
    src: Seq<char>,
    mtime: u64,
    artifact: Seq<char>,
    stderr: Seq<char>,
)
    requires
        in_flight < MAX_CONCURRENT,
    ensures
        ({
            let looked = asset_step(
                kind,
                in_flight,
                AssetStateView::AwaitingModified { src },
                AssetEventView::Modified { mtime },
            );
            let started = asset_step(
                kind,
                looked.in_flight,
                looked.state,
                AssetEventView::Located { artifact, exists: false },
            );
            let ended = asset_step(
                kind,
                started.in_flight,
                started.state,
                AssetEventView::ToolExited { success: true, stderr },
            );
            &&& looked.actions == seq![
                AssetActionView::LocateArtifact {
                    file_name: artifact_file_name(kind, cache_key(src, mtime)),
                },
            ]
            &&& started.actions == seq![
                AssetActionView::RunTool { program: "ffmpeg"@, args: tool_args(kind, src, artifact) },
            ]
            &&& tool_args(kind, src, artifact).last() == artifact
            &&& started.in_flight == in_flight + 1
            &&& ended.state == AssetStateView::Finished
            &&& ended.in_flight == in_flight
            &&& forall|i: int|
                0 <= i < ended.actions.len() ==> !(#[trigger] ended.actions[i] is RunTool)
            &&& ended.actions.last() == match kind {
                AssetKind::Thumbnail => AssetActionView::ThumbnailDone(thumbnail_at(src, artifact)),
                AssetKind::Proxy => AssetActionView::ProxyDone(artifact),
            }
        }),
{
}

/// An artifact that is there already is handed out as it is: the request
/// ends with it, and no tool is run.
pub proof fn lemma_cached_artifact_runs_no_tool(
    kind: AssetKind,
    in_flight: nat,
    src: Seq<char>,
    file_name: Seq<char>,
    artifact: Seq<char>,
)
    ensures
        ({
            let o = asset_step(
                kind,
                in_flight,
                AssetStateView::AwaitingArtifact { src, file_name },
                AssetEventView::Located { artifact, exists: true },
            );
            &&& o.state == AssetStateView::Finished
            &&& o.in_flight == in_flight
            &&& forall|i: int| 0 <= i < o.actions.len() ==> !(#[trigger] o.actions[i] is RunTool)
            &&& o.actions.last() == match kind {
                AssetKind::Thumbnail => AssetActionView::ThumbnailDone(thumbnail_at(src, artifact)),
                AssetKind::Proxy => AssetActionView::ProxyDone(artifact),
            }
        }),
{
}

/// A tool that fails ends the request with a non-empty error, after the
/// artifact's place has been cleared; nothing is reported as ready and
/// nothing is noted in the catalog.
pub proof fn lemma_failed_tool_leaves_nothing(
    kind: AssetKind,
    in_flight: nat,
    src: Seq<char>,
    artifact: Seq<char>,
    stderr: Seq<char>,
)
    ensures
        ({
            let o = asset_step(
                kind,
                in_flight,
                AssetStateView::AwaitingTool { src, artifact },
                AssetEventView::ToolExited { success: false, stderr },
            );
            &&& o.state == AssetStateView::Finished
            &&& o.actions[0] == AssetActionView::RemoveArtifact { path: artifact }
            &&& o.actions.last() == AssetActionView::Failed(tool_error(kind, stderr))
            &&& tool_error(kind, stderr).len() > 0
            &&& forall|i: int|
                0 <= i < o.actions.len() ==> {
                    let a = #[trigger] o.actions[i];
                    !(a is ThumbnailDone || a is ProxyDone || a is ReportThumbnail || a
                        is ReportProxy || a is RecordThumbnail || a is RunTool)
                }
        }),
{
    reveal_strlit("FFmpeg failed: ");
    reveal_strlit("FFmpeg proxy generation failed: ");
}

/// No step lets more than [`MAX_CONCURRENT`] tools run: a tool is started
/// only while fewer run, and is counted from then on.
pub proof fn lemma_tool_limit(
    kind: AssetKind,
    in_flight: nat,
    state: AssetStateView,
    event: AssetEventView,
)
    requires
        in_flight <= MAX_CONCURRENT,
    ensures
        ({
            let o = asset_step(kind, in_flight, state, event);
            &&& o.in_flight <= MAX_CONCURRENT
            &&& forall|i: int|
                0 <= i < o.actions.len() && #[trigger] o.actions[i] is RunTool ==> {
                    &&& in_flight < MAX_CONCURRENT
                    &&& o.in_flight == in_flight + 1
                    &&& o.state is AwaitingTool
                }
        }),
{
}

} // verus!
