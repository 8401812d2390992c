//! `trace.info`: the summary of a session, cached for as long as the files
//! of the session stay as they were, with checksums and sample events on
//! request.

use crate::atf::event::{events_view, texts_view, EventView, ParsedEvent};
use crate::atf::manifest::{validated, ManifestInfo, ManifestView, RawManifest};
use crate::atf::reader::{log_events, EventStream, FileRead};
use crate::handlers::cache::{CacheEntry, CacheKey, SummaryCache};
use crate::handlers::events::{project, EventProjection, EventResult, EventResultView};
use crate::server::{JsonRpcError, JsonRpcErrorView, JsonRpcServer, Method};
use crate::text::{
    child_path, child_path_text, hex_string, hex_text, is_blank, str_is_blank, trim, trimmed,
};
use vstd::prelude::*;
use vstd::slice::*;
use vstd::string::*;

verus! {

/// How many events a sample holds from either end of the log.
pub const SAMPLE_COUNT: usize = 10;

/// The MD5 digest of a byte string: sixteen bytes.
pub uninterp spec fn md5_digest(bytes: Seq<u8>) -> Seq<u8>;

/// `md5::compute`: the digest of the bytes, which is sixteen bytes long and
/// depends on the bytes alone. Trusted, not proved.
#[verifier::external_body]
fn md5_of(bytes: &[u8]) -> (digest: Vec<u8>)
    ensures
        digest@ == md5_digest(bytes@),
        digest@.len() == 16,
{
    md5::compute(bytes).0.to_vec()
}

/// The checksum of a file's content: its MD5 digest as 32 hexadecimal digits
/// in lower case.
pub fn checksum_hex(bytes: &[u8]) -> (text: String)
    ensures
        text@ == hex_text(md5_digest(bytes@)),
        text@.len() == 32,
{
    let digest = md5_of(bytes);
    hex_string(digest.as_slice())
}

/// The parameters of `trace.info`.
#[derive(Debug, Clone)]
pub struct TraceInfoParams {
    pub trace_id: String,
    pub include_checksums: bool,
    pub include_samples: bool,
}

impl TraceInfoParams {
    /// The request for the summary of session `trace_id` and nothing more.
    pub fn for_trace(trace_id: String) -> (p: Self)
        ensures
            p.trace_id == trace_id,
            !p.include_checksums,
            !p.include_samples,
    {
        TraceInfoParams { trace_id, include_checksums: false, include_samples: false }
    }

    /// Why the request is refused, if it is.
    pub open spec fn rejection(self) -> Option<JsonRpcErrorView> {
        if is_blank(self.trace_id@) {
            Some(JsonRpcErrorView::invalid_params("traceId must not be empty"@))
        } else {
            None
        }
    }

    /// The session that the request names.
    pub open spec fn session(self) -> Seq<char> {
        trim(self.trace_id@)
    }
}

/// What is known of a session from its manifest.
#[derive(Debug, Clone, PartialEq)]
pub struct TraceSummary {
    pub trace_id: String,
    pub os: String,
    pub arch: String,
    pub pid: u32,
    pub session_id: u64,
    pub time_start_ns: u64,
    pub time_end_ns: u64,
    pub duration_ns: u64,
    pub event_count: u64,
    pub span_count: u64,
    pub bytes_written: u64,
    pub modules: Vec<String>,
}

/// Mathematical model of a [`TraceSummary`].
pub struct SummaryView {
    pub trace_id: Seq<char>,
    pub os: Seq<char>,
    pub arch: Seq<char>,
    pub pid: u32,
    pub session_id: u64,
    pub time_start_ns: u64,
    pub time_end_ns: u64,
    pub duration_ns: u64,
    pub event_count: u64,
    pub span_count: u64,
    pub bytes_written: u64,
    pub modules: Seq<Seq<char>>,
}

impl View for TraceSummary {
    type V = SummaryView;

    open spec fn view(&self) -> SummaryView {
        SummaryView {
            trace_id: self.trace_id@,
            os: self.os@,
            arch: self.arch@,
            pid: self.pid,
            session_id: self.session_id,
            time_start_ns: self.time_start_ns,
            time_end_ns: self.time_end_ns,
            duration_ns: self.duration_ns,
            event_count: self.event_count,
            span_count: self.span_count,
            bytes_written: self.bytes_written,
            modules: texts_view(self.modules@),
        }
    }
}

impl SummaryView {
    /// The summary of session `trace_id` with the manifest `manifest`: the
    /// manifest's values, its duration, and its resolved number of spans.
    pub open spec fn of(trace_id: Seq<char>, manifest: ManifestView) -> SummaryView {
        SummaryView {
            trace_id,
            os: manifest.os,
            arch: manifest.arch,
            pid: manifest.pid,
            session_id: manifest.session_id,
            time_start_ns: manifest.time_start_ns,
            time_end_ns: manifest.time_end_ns,
            duration_ns: manifest.duration_ns(),
            event_count: manifest.event_count,
            span_count: manifest.resolved_span_count(),
            bytes_written: manifest.bytes_written,
            modules: manifest.modules,
        }
    }
}

/// A copy of a list of strings.
pub fn copy_texts(texts: &Vec<String>) -> (copy: Vec<String>)
    ensures
        texts_view(copy@) == texts_view(texts@),
{
    let mut copy: Vec<String> = Vec::new();
    let mut i: usize = 0;
    while i < texts.len()
        invariant
            i <= texts.len(),
            copy@.len() == i,
            forall|k: int| 0 <= k < i ==> (#[trigger] copy@[k])@ == texts@[k]@,
        decreases texts.len() - i,
    {
        copy.push(texts[i].clone());
        i += 1;
    }
    assert(texts_view(copy@) =~= texts_view(texts@));
    copy
}

impl TraceSummary {
    /// The summary of session `trace_id` with the manifest `manifest`.
    pub fn of(trace_id: &str, manifest: &ManifestInfo) -> (summary: Self)
        ensures
            summary@ == SummaryView::of(trace_id@, manifest@),
    {
        TraceSummary {
            trace_id: String::from_str(trace_id),
            os: manifest.os.clone(),
            arch: manifest.arch.clone(),
            pid: manifest.pid,
            session_id: manifest.session_id,
            time_start_ns: manifest.time_start_ns,
            time_end_ns: manifest.time_end_ns,
            duration_ns: manifest.duration_ns(),
            event_count: manifest.event_count,
            span_count: manifest.resolved_span_count(),
            bytes_written: manifest.bytes_written,
            modules: copy_texts(&manifest.modules),
        }
    }

    /// A copy of the summary.
    pub fn duplicate(&self) -> (copy: Self)
        ensures
            copy@ == self@,
    {
        TraceSummary {
            trace_id: self.trace_id.clone(),
            os: self.os.clone(),
            arch: self.arch.clone(),
            pid: self.pid,
            session_id: self.session_id,
            time_start_ns: self.time_start_ns,
            time_end_ns: self.time_end_ns,
            duration_ns: self.duration_ns,
            event_count: self.event_count,
            span_count: self.span_count,
            bytes_written: self.bytes_written,
            modules: copy_texts(&self.modules),
        }
    }
}

/// The checksums of the two files of a session.
#[derive(Debug, Clone, PartialEq)]
pub struct Checksums {
    pub manifest_md5: String,
    pub events_md5: String,
}

/// Mathematical model of [`Checksums`].
pub struct ChecksumsView {
    pub manifest_md5: Seq<char>,
    pub events_md5: Seq<char>,
}

impl View for Checksums {
    type V = ChecksumsView;

    open spec fn view(&self) -> ChecksumsView {
        ChecksumsView { manifest_md5: self.manifest_md5@, events_md5: self.events_md5@ }
    }
}

/// The first and the last events of a log.
#[derive(Debug, Clone, PartialEq)]
pub struct Samples {
    pub first_events: Vec<EventResult>,
    pub last_events: Vec<EventResult>,
}

/// Mathematical model of [`Samples`].
pub struct SamplesView {
    pub first_events: Seq<EventResultView>,
    pub last_events: Seq<EventResultView>,
}

impl View for Samples {
    type V = SamplesView;

    open spec fn view(&self) -> SamplesView {
        SamplesView {
            first_events: crate::handlers::events::results_view(self.first_events@),
            last_events: crate::handlers::events::results_view(self.last_events@),
        }
    }
}

/// The projection of sample events: every field.
pub open spec fn sample_projection() -> EventProjection {
    EventProjection { timestamp_ns: true, thread_id: true, event_type: true, function_name: true }
}

/// The number of events in a sample of a log of `total` events.
pub open spec fn sample_len(total: nat) -> nat {
    if total < SAMPLE_COUNT {
        total
    } else {
        SAMPLE_COUNT as nat
    }
}

/// The samples of a log: its first and its last events, ten of each or all
/// where the log has fewer.
pub open spec fn samples_of(log: Seq<EventView>) -> SamplesView {
    let n = sample_len(log.len());
    SamplesView {
        first_events: log.take(n as int).map_values(|e: EventView| sample_projection().apply(e)),
        last_events: log.skip(log.len() - n).map_values(
            |e: EventView| sample_projection().apply(e),
        ),
    }
}

/// The events of `events` from `start` to `end`, with every field.
fn project_range(events: &Vec<ParsedEvent>, start: usize, end: usize) -> (results: Vec<
    EventResult,
>)
    requires
        start <= end <= events@.len(),
    ensures
        crate::handlers::events::results_view(results@) == events_view(events@).subrange(
            start as int,
            end as int,
        ).map_values(|e: EventView| sample_projection().apply(e)),
{
    let projection = EventProjection {
        timestamp_ns: true,
        thread_id: true,
        event_type: true,
        function_name: true,
    };
    let mut results: Vec<EventResult> = Vec::new();
    let mut i: usize = start;
    while i < end
        invariant
            start <= i <= end <= events@.len(),
            projection == sample_projection(),
            results@.len() == i - start,
            forall|k: int|
                0 <= k < i - start ==> (#[trigger] results@[k])@ == sample_projection().apply(
                    events@[start + k]@,
                ),
        decreases end - i,
    {
        results.push(project(&events[i], &projection));
        i += 1;
    }
    assert(crate::handlers::events::results_view(results@) =~= events_view(events@).subrange(
        start as int,
        end as int,
    ).map_values(|e: EventView| sample_projection().apply(e)));
    results
}

/// Takes the samples of a log.
pub fn sample_events(events: &Vec<ParsedEvent>) -> (samples: Samples)
    ensures
        samples@ == samples_of(events_view(events@)),
{
    let total = events.len();
    let n = if total < SAMPLE_COUNT {
        total
    } else {
        SAMPLE_COUNT
    };
    let first_events = project_range(events, 0, n);
    let last_events = project_range(events, total - n, total);
    proof {
        let log = events_view(events@);
        assert(log.subrange(0, n as int) =~= log.take(n as int));
        assert(log.subrange(total - n, total as int) =~= log.skip(total - n));
    }
    Samples { first_events, last_events }
}

/// The answer to `trace.info`.
#[derive(Debug, Clone, PartialEq)]
pub struct TraceInfoResponse {
    pub summary: TraceSummary,
    pub checksums: Option<Checksums>,
    pub samples: Option<Samples>,
}

/// Mathematical model of a [`TraceInfoResponse`].
pub struct TraceInfoResponseView {
    pub summary: SummaryView,
    pub checksums: Option<ChecksumsView>,
    pub samples: Option<SamplesView>,
}

impl View for TraceInfoResponse {
    type V = TraceInfoResponseView;

    open spec fn view(&self) -> TraceInfoResponseView {
        TraceInfoResponseView {
            summary: self.summary@,
            checksums: match self.checksums {
                Some(c) => Some(c@),
                None => None,
            },
            samples: match self.samples {
                Some(s) => Some(s@),
                None => None,
            },
        }
    }
}

/// What asking the file system about a file of the session gave.
#[derive(Debug, Clone, PartialEq)]
pub enum FileStat {
    /// The file does not exist.
    Missing,
    /// The file system refused, for the reason given.
    Failed(String),
    /// The time of the last change and the size of the file.
    Found { modified: u64, size: u64 },
}

/// What the file system gave for a session. The two stats are taken for
/// every request; a file is read only where the request needs it, and what
/// stands for a file that was not read is not looked at.
#[derive(Debug)]
pub struct SessionFiles {
    pub manifest_stat: FileStat,
    pub events_stat: FileStat,
    pub manifest: FileRead,
    pub manifest_json: Result<RawManifest, String>,
    pub events: FileRead,
}

/// The identity of the files of a session, or why there is none: a file that
/// does not exist means that the session is not found, any other refusal is
/// an internal error. The manifest is asked about first.
pub open spec fn identity(manifest: FileStat, events: FileStat) -> Result<
    CacheKey,
    JsonRpcErrorView,
> {
    match manifest {
        FileStat::Missing => Err(JsonRpcErrorView::trace_not_found()),
        FileStat::Failed(cause) => Err(
            JsonRpcErrorView::internal("failed to read manifest metadata: "@ + cause@),
        ),
        FileStat::Found { modified: manifest_mtime, size: manifest_size } => match events {
            FileStat::Missing => Err(JsonRpcErrorView::trace_not_found()),
            FileStat::Failed(cause) => Err(
                JsonRpcErrorView::internal("failed to read events metadata: "@ + cause@),
            ),
            FileStat::Found { modified: events_mtime, size: events_size } => Ok(
                CacheKey { manifest_mtime, manifest_size, events_mtime, events_size },
            ),
        },
    }
}

/// The summary that loading the manifest gives, or why there is none.
pub open spec fn loaded_summary(
    trace_id: Seq<char>,
    manifest: FileRead,
    parsed: Result<RawManifest, String>,
) -> Result<SummaryView, JsonRpcErrorView> {
    match manifest {
        FileRead::Missing => Err(JsonRpcErrorView::trace_not_found()),
        FileRead::Failed(cause) => Err(
            JsonRpcErrorView::internal("failed to read manifest: "@ + cause@),
        ),
        FileRead::Loaded(payload) => match validated(payload@, parsed) {
            Err(e) => Err(JsonRpcErrorView::internal("failed to parse manifest: "@ + e.message())),
            Ok(info) => Ok(SummaryView::of(trace_id, info)),
        },
    }
}

/// The content of a file that was read, or why there is none.
pub open spec fn content(file: FileRead, failure: Seq<char>) -> Result<Seq<u8>, JsonRpcErrorView> {
    match file {
        FileRead::Missing => Err(JsonRpcErrorView::internal(failure + "file not found"@)),
        FileRead::Failed(cause) => Err(JsonRpcErrorView::internal(failure + cause@)),
        FileRead::Loaded(bytes) => Ok(bytes@),
    }
}

/// The checksums of the two files, or why there are none.
pub open spec fn checksums_of(manifest: FileRead, events: FileRead) -> Result<
    ChecksumsView,
    JsonRpcErrorView,
> {
    match content(manifest, "failed to read manifest: "@) {
        Err(e) => Err(e),
        Ok(manifest_bytes) => match content(events, "failed to read events: "@) {
            Err(e) => Err(e),
            Ok(events_bytes) => Ok(
                ChecksumsView {
                    manifest_md5: hex_text(md5_digest(manifest_bytes)),
                    events_md5: hex_text(md5_digest(events_bytes)),
                },
            ),
        },
    }
}

/// The samples of the event file, or why there are none.
pub open spec fn samples_from(events: FileRead) -> Result<SamplesView, JsonRpcErrorView> {
    match content(events, "failed to read events: "@) {
        Err(e) => Err(e),
        Ok(bytes) => match log_events(bytes) {
            Err(fault) => Err(
                JsonRpcErrorView::internal("failed to decode events: "@ + fault.text()),
            ),
            Ok(log) => Ok(samples_of(log)),
        },
    }
}

/// Which files a request needs to have read.
#[derive(Debug, Clone, Copy, PartialEq, Eq, Structural)]
pub struct ReadPlan {
    pub manifest: bool,
    pub events: bool,
}

/// Decides [`content`].
fn file_content<'a>(file: &'a FileRead, failure: &str) -> (r: Result<&'a [u8], JsonRpcError>)
    ensures
        match r {
            Ok(bytes) => content(*file, failure@) == Ok::<_, JsonRpcErrorView>(bytes@),
            Err(e) => content(*file, failure@) == Err::<Seq<u8>, _>(e@),
        },
{
    match file {
        FileRead::Missing => Err(
            JsonRpcError::internal(String::from_str(failure).concat("file not found").as_str()),
        ),
        FileRead::Failed(cause) => Err(
            JsonRpcError::internal(String::from_str(failure).concat(cause.as_str()).as_str()),
        ),
        FileRead::Loaded(bytes) => Ok(bytes.as_slice()),
    }
}

/// The `trace.info` operation over the sessions below one directory, with
/// its cache.
pub struct TraceInfoHandler {
    trace_root_dir: String,
    cache: SummaryCache<TraceSummary>,
}

impl TraceInfoHandler {
    /// The directory below which the sessions lie.
    pub closed spec fn root(&self) -> Seq<char> {
        self.trace_root_dir@
    }

    /// The cache of the operation.
    pub closed spec fn cache(&self) -> SummaryCache<TraceSummary> {
        self.cache
    }

    /// The invariant of the operation: that of its cache.
    pub open spec fn wf(&self) -> bool {
        self.cache().wf()
    }

    /// The summary that the cache holds for a request, if it holds one that
    /// is current.
    pub open spec fn cached(&self, session: Seq<char>, key: CacheKey, now_ms: u64) -> Option<
        SummaryView,
    > {
        match self.cache().valid_entry(session, key, now_ms) {
            Some(entry) => Some(entry.value@),
            None => None,
        }
    }

    /// The operation over the sessions below `trace_root_dir`, with an empty
    /// cache of `capacity` summaries that are good for `ttl_ms` milliseconds.
    pub fn new(trace_root_dir: String, capacity: usize, ttl_ms: u64) -> (h: Self)
        ensures
            h.wf(),
            h.root() == trace_root_dir@,
            h.cache().capacity() == capacity,
            h.cache().ttl_ms() == ttl_ms,
            h.cache().entries().len() == 0,
    {
        TraceInfoHandler { trace_root_dir, cache: SummaryCache::new(capacity, ttl_ms) }
    }

    /// Registers the operation with `server` under its name.
    pub fn register(self, server: &mut JsonRpcServer)
        ensures
            final(server).trace_info == Some(self),
            final(server).events_get == old(server).events_get,
            final(server).spans_list == old(server).spans_list,
            final(server).offers(Method::TraceInfo),
    {
        server.trace_info = Some(self);
    }

    /// The directory below which the sessions lie.
    pub fn trace_root_dir(&self) -> (dir: &str)
        ensures
            dir@ == self.root(),
    {
        self.trace_root_dir.as_str()
    }

    /// The directory of the session that a request names: the directory of
    /// that name, without the white space around it, below the root.
    pub open spec fn session_dir_of(&self, params: TraceInfoParams) -> Seq<char> {
        child_path_text(self.root(), trim(params.trace_id@))
    }

    /// The directory of the session that a request names.
    pub fn session_dir(&self, params: &TraceInfoParams) -> (dir: String)
        ensures
            dir@ == self.session_dir_of(*params),
    {
        child_path(self.trace_root_dir.as_str(), trimmed(params.trace_id.as_str()))
    }

    /// Checks the parameters of a request.
    pub fn validate_params(&self, params: &TraceInfoParams) -> (r: Result<(), JsonRpcError>)
        ensures
            r is Ok <==> params.rejection() is None,
            r matches Err(e) ==> Some(e@) == params.rejection(),
    {
        if str_is_blank(params.trace_id.as_str()) {
            return Err(JsonRpcError::invalid_params("traceId must not be empty"));
        }
        Ok(())
    }

    /// Decides [`identity`].
    pub fn file_identity(manifest: &FileStat, events: &FileStat) -> (r: Result<
        CacheKey,
        JsonRpcError,
    >)
        ensures
            match r {
                Ok(key) => identity(*manifest, *events) == Ok::<_, JsonRpcErrorView>(key),
                Err(e) => identity(*manifest, *events) == Err::<CacheKey, _>(e@),
            },
    {
        let (manifest_mtime, manifest_size) = match manifest {
            FileStat::Missing => {
                return Err(JsonRpcError::trace_not_found());
            },
            FileStat::Failed(cause) => {
                return Err(
                    JsonRpcError::internal(
                        String::from_str("failed to read manifest metadata: ").concat(
                            cause.as_str(),
                        ).as_str(),
                    ),
                );
            },
            FileStat::Found { modified, size } => (*modified, *size),
        };
        match events {
            FileStat::Missing => Err(JsonRpcError::trace_not_found()),
            FileStat::Failed(cause) => Err(
                JsonRpcError::internal(
                    String::from_str("failed to read events metadata: ").concat(
                        cause.as_str(),
                    ).as_str(),
                ),
            ),
            FileStat::Found { modified, size } => Ok(
                CacheKey {
                    manifest_mtime,
                    manifest_size,
                    events_mtime: *modified,
                    events_size: *size,
                },
            ),
        }
    }

    /// Which files have to be read to answer a request whose session has
    /// files of identity `key`: the manifest unless the cache holds a current
    /// summary, and for checksums; the event file for checksums and samples
    /// only.
    pub fn must_read(&self, params: &TraceInfoParams, key: &CacheKey, now_ms: u64) -> (plan:
        ReadPlan)
        ensures
            plan.manifest == (params.include_checksums || self.cached(
                params.session(),
                *key,
                now_ms,
            ) is None),
            plan.events == (params.include_checksums || params.include_samples),
    {
        let hit = self.cache.lookup(trimmed(params.trace_id.as_str()), key, now_ms).is_some();
        ReadPlan {
            manifest: params.include_checksums || !hit,
            events: params.include_checksums || params.include_samples,
        }
    }

    /// Decides [`loaded_summary`].
    pub fn load_summary(
        trace_id: &str,
        manifest: &FileRead,
        parsed: Result<RawManifest, String>,
    ) -> (r: Result<TraceSummary, JsonRpcError>)
        ensures
            match r {
                Ok(summary) => loaded_summary(trace_id@, *manifest, parsed) == Ok::<
                    _,
                    JsonRpcErrorView,
                >(summary@),
                Err(e) => loaded_summary(trace_id@, *manifest, parsed) == Err::<SummaryView, _>(
                    e@,
                ),
            },
    {
        match manifest {
            FileRead::Missing => Err(JsonRpcError::trace_not_found()),
            FileRead::Failed(cause) => Err(
                JsonRpcError::internal(
                    String::from_str("failed to read manifest: ").concat(cause.as_str()).as_str(),
                ),
            ),
            FileRead::Loaded(payload) => match ManifestInfo::from_bytes(
                payload.as_slice(),
                parsed,
            ) {
                Err(e) => Err(
                    JsonRpcError::internal(
                        String::from_str("failed to parse manifest: ").concat(
                            e.describe().as_str(),
                        ).as_str(),
                    ),
                ),
                Ok(info) => Ok(TraceSummary::of(trace_id, &info)),
            },
        }
    }

    /// Decides [`checksums_of`].
    pub fn compute_checksums(manifest: &FileRead, events: &FileRead) -> (r: Result<
        Checksums,
        JsonRpcError,
    >)
        ensures
            match r {
                Ok(sums) => checksums_of(*manifest, *events) == Ok::<_, JsonRpcErrorView>(sums@),
                Err(e) => checksums_of(*manifest, *events) == Err::<ChecksumsView, _>(e@),
            },
            r matches Ok(sums) ==> sums.manifest_md5@.len() == 32 && sums.events_md5@.len() == 32,
    {
        let manifest_bytes = file_content(manifest, "failed to read manifest: ")?;
        let events_bytes = file_content(events, "failed to read events: ")?;
        Ok(
            Checksums {
                manifest_md5: checksum_hex(manifest_bytes),
                events_md5: checksum_hex(events_bytes),
            },
        )
    }

    /// Decides [`samples_from`].
    pub fn take_samples(events: FileRead) -> (r: Result<Samples, JsonRpcError>)
        ensures
            match r {
                Ok(samples) => samples_from(events) == Ok::<_, JsonRpcErrorView>(samples@),
                Err(e) => samples_from(events) == Err::<SamplesView, _>(e@),
            },
    {
        let data = match events {
            FileRead::Missing => {
                return Err(
                    JsonRpcError::internal(
                        String::from_str("failed to read events: ").concat(
                            "file not found",
                        ).as_str(),
                    ),
                );
            },
            FileRead::Failed(cause) => {
                return Err(
                    JsonRpcError::internal(
                        String::from_str("failed to read events: ").concat(
                            cause.as_str(),
                        ).as_str(),
                    ),
                );
            },
            FileRead::Loaded(data) => data,
        };
        let mut stream = EventStream::new(data);
        match stream.drain() {
            Ok(list) => Ok(sample_events(&list)),
            Err(fault) => Err(
                JsonRpcError::internal(
                    String::from_str("failed to decode events: ").concat(fault.as_str()).as_str(),
                ),
            ),
        }
    }

    /// Answers a request, given what the file system gave for its session
    /// and the time. The parameters are checked first, then the two files
    /// must be there. The summary comes from the cache where the cache holds
    /// one for the session that was computed from files of the same identity
    /// and is within its time to live; else it is computed from the manifest
    /// and put into the cache. Checksums and samples are computed from the
    /// files on request.
    pub fn call(&mut self, params: &TraceInfoParams, session: SessionFiles, now_ms: u64) -> (r:
        Result<TraceInfoResponse, JsonRpcError>)
        ensures
            old(self).wf() ==> final(self).wf(),
            final(self).root() == old(self).root(),
            final(self).cache().capacity() == old(self).cache().capacity(),
            final(self).cache().ttl_ms() == old(self).cache().ttl_ms(),
            answers(r, old(self).outcome(*params, session, now_ms)),
            old(self).keeps_cache(*params, session, now_ms) ==> final(self).cache().entries()
                == old(self).cache().entries(),
            !old(self).keeps_cache(*params, session, now_ms) ==> exists|entry: CacheEntry<TraceSummary>|
                {
                    &&& entry.trace_id@ == params.session()
                    &&& Ok::<_, JsonRpcErrorView>(entry.key) == identity(
                        session.manifest_stat,
                        session.events_stat,
                    )
                    &&& entry.inserted_at_ms == now_ms
                    &&& Ok::<_, JsonRpcErrorView>(entry.value@) == loaded_summary(
                        params.session(),
                        session.manifest,
                        session.manifest_json,
                    )
                    &&& final(self).cache().entries() == old(self).cache().entries_after_insert(
                        entry,
                    )
                },
            !old(self).keeps_cache(*params, session, now_ms) && old(self).cache().capacity() > 0
                && old(self).wf() ==> final(self).cached(
                params.session(),
                identity(session.manifest_stat, session.events_stat)->Ok_0,
                now_ms,
            ) == Some(
                loaded_summary(params.session(), session.manifest, session.manifest_json)->Ok_0,
            ),
    {
        self.validate_params(params)?;
        let key = Self::file_identity(&session.manifest_stat, &session.events_stat)?;
        let trace_id = trimmed(params.trace_id.as_str());
        let cached = match self.cache.lookup(trace_id, &key, now_ms) {
            Some(summary) => Some(summary.duplicate()),
            None => None,
        };
        let summary = match cached {
            Some(summary) => summary,
            None => {
                let summary = Self::load_summary(
                    trace_id,
                    &session.manifest,
                    session.manifest_json,
                )?;
                let ghost before = self.cache;
                let kept = summary.duplicate();
                let owner = String::from_str(trace_id);
                let ghost entry = CacheEntry {
                    trace_id: owner,
                    key,
                    inserted_at_ms: now_ms,
                    value: kept,
                };
                self.cache.insert(owner, key, now_ms, kept);
                proof {
                    if before.capacity() > 0 && before.wf() {
                        crate::handlers::cache::lemma_cache_serves_what_is_current(
                            before,
                            self.cache,
                            entry,
                            key,
                            now_ms,
                        );
                    }
                }
                summary
            },
        };
        let checksums = if params.include_checksums {
            Some(Self::compute_checksums(&session.manifest, &session.events)?)
        } else {
            None
        };
        let samples = if params.include_samples {
            Some(Self::take_samples(session.events)?)
        } else {
            None
        };
        Ok(TraceInfoResponse { summary, checksums, samples })
    }

    /// The summary of a request: the one the cache holds if it is current,
    /// else the one that the manifest gives.
    pub open spec fn summary_for(&self, params: TraceInfoParams, session: SessionFiles, now_ms: u64)
        -> Result<SummaryView, JsonRpcErrorView> {
        match self.cached(
            params.session(),
            identity(session.manifest_stat, session.events_stat)->Ok_0,
            now_ms,
        ) {
            Some(summary) => Ok(summary),
            None => loaded_summary(params.session(), session.manifest, session.manifest_json),
        }
    }

    /// Whether a request leaves the cache as it is: when it is refused, when
    /// its files are not there, when the cache holds a current summary, and
    /// when the manifest gives none.
    pub open spec fn keeps_cache(&self, params: TraceInfoParams, session: SessionFiles, now_ms: u64)
        -> bool {
        ||| params.rejection() is Some
        ||| identity(session.manifest_stat, session.events_stat) is Err
        ||| self.cached(
            params.session(),
            identity(session.manifest_stat, session.events_stat)->Ok_0,
            now_ms,
        ) is Some
        ||| loaded_summary(params.session(), session.manifest, session.manifest_json) is Err
    }

    /// What a request is answered with.
    pub open spec fn outcome(&self, params: TraceInfoParams, session: SessionFiles, now_ms: u64)
        -> Result<TraceInfoResponseView, JsonRpcErrorView> {
        match params.rejection() {
            Some(refusal) => Err(refusal),
            None => match identity(session.manifest_stat, session.events_stat) {
                Err(e) => Err(e),
                Ok(_) => match self.summary_for(params, session, now_ms) {
                    Err(e) => Err(e),
                    Ok(summary) => with_extras(params, session, summary),
                },
            },
        }
    }
}

/// The summary with the checksums and the samples that the request asks
/// for, checksums first.
pub open spec fn with_extras(params: TraceInfoParams, session: SessionFiles, summary: SummaryView)
    -> Result<TraceInfoResponseView, JsonRpcErrorView> {
    if params.include_checksums && checksums_of(session.manifest, session.events) is Err {
        Err(checksums_of(session.manifest, session.events)->Err_0)
    } else if params.include_samples && samples_from(session.events) is Err {
        Err(samples_from(session.events)->Err_0)
    } else {
        Ok(
            TraceInfoResponseView {
                summary,
                checksums: if params.include_checksums {
                    Some(checksums_of(session.manifest, session.events)->Ok_0)
                } else {
                    None
                },
                samples: if params.include_samples {
                    Some(samples_from(session.events)->Ok_0)
                } else {
                    None
                },
            },
        )
    }
}

/// The result `r` is what `expected` says it is.
pub open spec fn answers(
    r: Result<TraceInfoResponse, JsonRpcError>,
    expected: Result<TraceInfoResponseView, JsonRpcErrorView>,
) -> bool {
    match r {
        Ok(response) => expected == Ok::<_, JsonRpcErrorView>(response@),
        Err(e) => expected == Err::<TraceInfoResponseView, _>(e@),
    }
}

/// Within its time to live and with the files as they were, a summary is
/// served from the cache: the answer to a request that asks for no more
/// than the summary is the same whatever is or is not read of the files,
/// and the request leaves the cache as it is.
pub proof fn lemma_cached_summary_needs_no_file(
    handler: TraceInfoHandler,
    params: TraceInfoParams,
    read: SessionFiles,
    unread: SessionFiles,
    now_ms: u64,
)
    requires
        params.rejection() is None,
        !params.include_checksums,
        !params.include_samples,
        read.manifest_stat == unread.manifest_stat,
        read.events_stat == unread.events_stat,
        identity(read.manifest_stat, read.events_stat) matches Ok(key) && handler.cached(
            params.session(),
            key,
            now_ms,
        ) is Some,
    ensures
        handler.outcome(params, read, now_ms) == handler.outcome(params, unread, now_ms),
        handler.outcome(params, read, now_ms) is Ok,
        handler.keeps_cache(params, read, now_ms),
        handler.keeps_cache(params, unread, now_ms),
{
}

/// When the time of last change or the size of either file is another than
/// the cached summary was computed from, the summary is computed from the
/// manifest as it is now.
pub proof fn lemma_changed_files_reload(
    handler: TraceInfoHandler,
    params: TraceInfoParams,
    session: SessionFiles,
    now_ms: u64,
)
    requires
        params.rejection() is None,
        identity(session.manifest_stat, session.events_stat) matches Ok(key) && (forall|
            i: int,
        |
            0 <= i < handler.cache().entries().len() && (
            #[trigger] handler.cache().entries()[i]).trace_id@ == params.session()
                ==> handler.cache().entries()[i].key != key),
    ensures
        handler.summary_for(params, session, now_ms) == loaded_summary(
            params.session(),
            session.manifest,
            session.manifest_json,
        ),
{
    crate::handlers::cache::lemma_position_is_first(
        handler.cache().entries(),
        params.session(),
    );
}

} // verus!
