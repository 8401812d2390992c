//! The manifest of a session: what `trace.json` says, once validated.

use crate::atf::error::{AtfError, AtfErrorView, AtfResult};
use crate::atf::event::texts_view;
use vstd::prelude::*;
use vstd::string::*;

verus! {

/// The manifest as its JSON object gives it, before validation. Absent and
/// `null` members are `None`.
#[derive(Debug, Clone, PartialEq)]
pub struct RawManifest {
    pub os: String,
    pub arch: String,
    pub pid: u32,
    pub session_id: u64,
    pub time_start_ns: u64,
    pub time_end_ns: u64,
    pub event_count: u64,
    pub bytes_written: u64,
    pub span_count: Option<u64>,
    pub modules: Option<Vec<String>>,
}

/// The validated manifest of a session.
#[derive(Debug, Clone, PartialEq)]
pub struct ManifestInfo {
    pub os: String,
    pub arch: String,
    pub pid: u32,
    pub session_id: u64,
    pub time_start_ns: u64,
    pub time_end_ns: u64,
    pub event_count: u64,
    pub span_count: Option<u64>,
    pub bytes_written: u64,
    pub modules: Vec<String>,
}

/// Mathematical model of a [`ManifestInfo`].
pub struct ManifestView {
    pub os: Seq<char>,
    pub arch: Seq<char>,
    pub pid: u32,
    pub session_id: u64,
    pub time_start_ns: u64,
    pub time_end_ns: u64,
    pub event_count: u64,
    pub span_count: Option<u64>,
    pub bytes_written: u64,
    pub modules: Seq<Seq<char>>,
}

impl View for ManifestInfo {
    type V = ManifestView;

    open spec fn view(&self) -> ManifestView {
        ManifestView {
            os: self.os@,
            arch: self.arch@,
            pid: self.pid,
            session_id: self.session_id,
            time_start_ns: self.time_start_ns,
            time_end_ns: self.time_end_ns,
            event_count: self.event_count,
            span_count: self.span_count,
            bytes_written: self.bytes_written,
            modules: texts_view(self.modules@),
        }
    }
}

impl ManifestView {
    /// The invariant of a manifest: the session does not end before it
    /// starts.
    pub open spec fn valid(self) -> bool {
        self.time_end_ns >= self.time_start_ns
    }

    /// How long the session lasted.
    pub open spec fn duration_ns(self) -> u64 {
        if self.time_end_ns >= self.time_start_ns {
            (self.time_end_ns - self.time_start_ns) as u64
        } else {
            0
        }
    }

    /// The number of spans: the one recorded, or half the number of events.
    pub open spec fn resolved_span_count(self) -> u64 {
        match self.span_count {
            Some(count) => count,
            None => self.event_count / 2,
        }
    }
}

impl RawManifest {
    /// The manifest that the raw one stands for: no module list is an empty
    /// list.
    pub open spec fn manifest(self) -> ManifestView {
        ManifestView {
            os: self.os@,
            arch: self.arch@,
            pid: self.pid,
            session_id: self.session_id,
            time_start_ns: self.time_start_ns,
            time_end_ns: self.time_end_ns,
            event_count: self.event_count,
            span_count: self.span_count,
            bytes_written: self.bytes_written,
            modules: match self.modules {
                Some(modules) => texts_view(modules@),
                None => Seq::empty(),
            },
        }
    }
}

/// What validating a manifest gives: the file must not be empty, its JSON
/// must have been understood, and the end time must not precede the start
/// time. `parsed` is what the JSON decoder made of the file's bytes, or its
/// complaint.
pub open spec fn validated(payload: Seq<u8>, parsed: Result<RawManifest, String>) -> Result<
    ManifestView,
    AtfErrorView,
> {
    if payload.len() == 0 {
        Err(AtfErrorView::Manifest("manifest payload is empty"@))
    } else {
        match parsed {
            Err(complaint) => Err(AtfErrorView::Manifest(complaint@)),
            Ok(raw) => if raw.time_end_ns < raw.time_start_ns {
                Err(AtfErrorView::Manifest("manifest end time precedes start time"@))
            } else {
                Ok(raw.manifest())
            },
        }
    }
}

impl ManifestInfo {
    /// Validates the manifest of a session. `payload` is the content of the
    /// manifest file and `parsed` what the JSON decoder made of it. An empty
    /// file, a file that is no manifest object, and a manifest whose end time
    /// precedes its start time are rejected.
    pub fn from_bytes(payload: &[u8], parsed: Result<RawManifest, String>) -> (r: AtfResult<Self>)
        ensures
            match r {
                Ok(manifest) => validated(payload@, parsed) == Ok::<_, AtfErrorView>(manifest@)
                    && manifest@.valid(),
                Err(e) => validated(payload@, parsed) == Err::<ManifestView, _>(e@) && e
                    is Manifest,
            },
            payload@.len() == 0 ==> r is Err,
            parsed matches Ok(raw) ==> (raw.time_end_ns < raw.time_start_ns ==> r is Err),
    {
        if payload.len() == 0 {
            return Err(AtfError::manifest("manifest payload is empty"));
        }
        let raw = match parsed {
            Ok(raw) => raw,
            Err(complaint) => {
                return Err(AtfError::Manifest(complaint));
            },
        };
        if raw.time_end_ns < raw.time_start_ns {
            return Err(AtfError::manifest("manifest end time precedes start time"));
        }
        let modules = match raw.modules {
            Some(modules) => modules,
            None => Vec::new(),
        };
        let manifest = ManifestInfo {
            os: raw.os,
            arch: raw.arch,
            pid: raw.pid,
            session_id: raw.session_id,
            time_start_ns: raw.time_start_ns,
            time_end_ns: raw.time_end_ns,
            event_count: raw.event_count,
            span_count: raw.span_count,
            bytes_written: raw.bytes_written,
            modules,
        };
        assert(manifest@.modules =~= raw.manifest().modules);
        Ok(manifest)
    }

    /// How long the session lasted.
    pub fn duration_ns(&self) -> (d: u64)
        ensures
            d == self@.duration_ns(),
    {
        if self.time_end_ns >= self.time_start_ns {
            self.time_end_ns - self.time_start_ns
        } else {
            0
        }
    }

    /// The number of spans: the one recorded, or half the number of events.
    pub fn resolved_span_count(&self) -> (count: u64)
        ensures
            count == self@.resolved_span_count(),
    {
        match self.span_count {
            Some(count) => count,
            None => self.event_count / 2,
        }
    }
}

} // verus!
